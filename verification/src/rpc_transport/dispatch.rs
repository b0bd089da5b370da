//! From a request to what is done about it.

use vstd::prelude::*;
use vstd::string::*;

use crate::channel::dig::{dig_spec, RoomSpec};
use crate::channel::endpoint::{BindingView, IrcBinding};
use crate::channel::room::{
    entered, entry_refusal, joinable, left, lists_presence, presence_views, room_description,
    PresenceRecord, PresenceView, RoomActor, RoomView,
};
use crate::collections::{borrow_texts, held, texts};
use crate::error::{outcome, Error};
use crate::ids::draw_exit_fragment;
use crate::root::dig::drawn;
use crate::root::model::{
    concourse, concourse_command_step, dig_from_step, dig_or_enter_step, enter_step, exit_known,
    holds_exit, resolve, room_command_step, room_key, traversed, with_room, DigView, RootView,
};
use crate::root::report::snapshot_of;
use crate::root::{DigOutcome, RootActor, CONCOURSE_ROOM};
use crate::rpc_transport::wire::{
    child_ctx_for_presence, command_input, command_line, command_term, command_tree,
    did_enter_term, did_enter_tree, enter_term, enter_tree, event_term, event_tree, parse_term,
    presence_tree, request_of, room_actor_url, room_ctx_term, room_tree, room_url, speaking_room,
    speaking_room_tree, traversal_did, traverse_term, traverse_tree, traveller,
};
use crate::term::{cbor_decoded, decode_term, text_term, Term, TermView};
use crate::text::{join, join_all, no_text, same_text, starts_with, trim, trimmed};

verus! {

// ---- requests ----

/// A request that arrived: who sent it, the address it was sent to and that
/// address's fragment, and what it says.
#[derive(Debug)]
pub struct Request {
    pub from: String,
    pub to: String,
    pub fragment: Option<String>,
    pub term: Term,
}

/// What a `Request` holds.
pub struct RequestView {
    pub from: Seq<char>,
    pub to: Seq<char>,
    pub fragment: Option<Seq<char>>,
    pub term: TermView,
}

impl View for Request {
    type V = RequestView;

    open spec fn view(&self) -> RequestView {
        RequestView {
            from: self.from@,
            to: self.to@,
            fragment: held(self.fragment),
            term: self.term@,
        }
    }
}

/// The fragment of what `ma_core::Did::try_from` parses; `None` where it refuses
/// the text.
pub uninterp spec fn did_fragment(text: Seq<char>) -> Option<Option<Seq<char>>>;

/// `ma_core::Did::try_from` on a text: a DID with or without a fragment, or an
/// error, by the text alone.
#[verifier::external_body]
fn parse_did(text: &str) -> (r: Option<Option<String>>)
    ensures
        match r {
            Some(fragment) => did_fragment(text@) == Some(held(fragment)),
            None => did_fragment(text@) is None,
        },
{
    ma_core::Did::try_from(text).ok().map(|did| did.fragment)
}

/// The payload that `ma_core::decode_content` finds behind the codec prefix of
/// these bytes; `None` where it refuses them.
pub uninterp spec fn content_payload(content: Seq<u8>) -> Option<Seq<u8>>;

/// `ma_core::decode_content`: the bytes behind the codec prefix, or an error, by
/// the bytes alone.
#[verifier::external_body]
fn peel_content(content: &[u8]) -> (r: Option<Vec<u8>>)
    ensures
        match r {
            Some(payload) => content_payload(content@) == Some(payload@),
            None => content_payload(content@) is None,
        },
{
    ma_core::decode_content(content).ok().map(|(_, payload)| payload)
}

/// The request in a message, or why there is none.
pub open spec fn received(from: Seq<char>, to: Seq<char>, content: Seq<u8>) -> Result<
    RequestView,
    Seq<char>,
> {
    match did_fragment(to) {
        None => Err("invalid RPC target did"@),
        Some(fragment) => match content_payload(content) {
            None => Err("decoding RPC multicodec"@),
            Some(payload) => match cbor_decoded(payload) {
                None => Err("decoding RPC term"@),
                Some(term) => Ok(RequestView { from, to, fragment, term }),
            },
        },
    }
}

pub fn decode_request(from: &str, to: &str, content: &[u8]) -> (r: Result<Request, Error>)
    ensures
        outcome(r) == received(from@, to@, content@),
{
    let fragment = match parse_did(to) {
        Some(fragment) => fragment,
        None => {
            return Err(Error::of("invalid RPC target did"));
        },
    };
    let payload = match peel_content(content) {
        Some(payload) => payload,
        None => {
            return Err(Error::of("decoding RPC multicodec"));
        },
    };
    match decode_term(payload.as_slice(), "decoding RPC term") {
        Ok(term) => Ok(Request { from: from.to_owned(), to: to.to_owned(), fragment, term }),
        Err(error) => Err(error),
    }
}

// ---- decisions ----

/// A reply, and the actor that gives it.
#[derive(Debug)]
pub struct Reply {
    pub from_actor: String,
    pub term: Term,
}

/// What a `Reply` holds.
pub struct ReplyView {
    pub from_actor: Seq<char>,
    pub term: TermView,
}

impl View for Reply {
    type V = ReplyView;

    open spec fn view(&self) -> ReplyView {
        ReplyView { from_actor: self.from_actor@, term: self.term@ }
    }
}

/// What is to be done beside replying.
#[derive(Debug)]
pub enum Effect {
    Nothing,
    /// Stop the bridge of a room.
    StopBridge { fragment: String },
    /// Stop the bridge of a room, and switch its channel off again after that.
    SwitchOff { fragment: String },
    /// Connect every occupant of a room to its channel.
    ConnectOccupants { fragment: String, binding: IrcBinding, presence: Vec<PresenceRecord> },
    /// Let the bridge of a room say something on the channel.
    Speak { fragment: String, did: String, text: String, emote: bool },
    /// Tell every occupant of a room.
    Broadcast { from_actor: String, term: Term, presence: Vec<PresenceRecord> },
    /// Let the bridge of a room, if there is one, disconnect an occupant.
    Disconnect { fragment: String, did: String },
}

/// What an `Effect` holds.
pub enum EffectView {
    Nothing,
    StopBridge { fragment: Seq<char> },
    SwitchOff { fragment: Seq<char> },
    ConnectOccupants {
        fragment: Seq<char>,
        binding: BindingView,
        presence: Seq<PresenceView>,
    },
    Speak { fragment: Seq<char>, did: Seq<char>, text: Seq<char>, emote: bool },
    Broadcast { from_actor: Seq<char>, term: TermView, presence: Seq<PresenceView> },
    Disconnect { fragment: Seq<char>, did: Seq<char> },
}

impl View for Effect {
    type V = EffectView;

    open spec fn view(&self) -> EffectView {
        match self {
            Effect::Nothing => EffectView::Nothing,
            Effect::StopBridge { fragment } => EffectView::StopBridge { fragment: fragment@ },
            Effect::SwitchOff { fragment } => EffectView::SwitchOff { fragment: fragment@ },
            Effect::ConnectOccupants { fragment, binding, presence } => {
                EffectView::ConnectOccupants {
                    fragment: fragment@,
                    binding: binding@,
                    presence: presence_views(presence@),
                }
            },
            Effect::Speak { fragment, did, text, emote } => EffectView::Speak {
                fragment: fragment@,
                did: did@,
                text: text@,
                emote: *emote,
            },
            Effect::Broadcast { from_actor, term, presence } => EffectView::Broadcast {
                from_actor: from_actor@,
                term: term@,
                presence: presence_views(presence@),
            },
            Effect::Disconnect { fragment, did } => EffectView::Disconnect {
                fragment: fragment@,
                did: did@,
            },
        }
    }
}

/// What is to be done about a request.
#[derive(Debug)]
pub enum Decision {
    Ignore,
    Answer { effect: Effect, reply: Reply },
    /// Connect `did` to the channel of the room that was entered. The reply goes
    /// out if that succeeds; `join_failed` says what to do if it does not.
    Join {
        room: String,
        fragment: String,
        binding: IrcBinding,
        did: String,
        nick: String,
        reply: Reply,
    },
}

/// What a `Decision` holds.
pub enum DecisionView {
    Ignore,
    Answer { effect: EffectView, reply: ReplyView },
    Join {
        room: Seq<char>,
        fragment: Seq<char>,
        binding: BindingView,
        did: Seq<char>,
        nick: Seq<char>,
        reply: ReplyView,
    },
}

impl View for Decision {
    type V = DecisionView;

    open spec fn view(&self) -> DecisionView {
        match self {
            Decision::Ignore => DecisionView::Ignore,
            Decision::Answer { effect, reply } => DecisionView::Answer {
                effect: effect@,
                reply: reply@,
            },
            Decision::Join { room, fragment, binding, did, nick, reply } => DecisionView::Join {
                room: room@,
                fragment: fragment@,
                binding: binding@,
                did: did@,
                nick: nick@,
                reply: reply@,
            },
        }
    }
}

/// What a decision depends on beside the request and the root: the addresses
/// drawn for a new room and a new exit, the order in which the occupants of the
/// addressed room are walked, and the room in which an exit address is found.
pub struct Chance {
    pub room: Seq<char>,
    pub exit: Seq<char>,
    pub presence: Seq<PresenceView>,
    pub holder: Seq<char>,
}

/// Whether `c` can come about for a request to the address `addr`, which takes
/// the root from `root` to `after`.
pub open spec fn possible(c: Chance, root: RootView, after: RootView, addr: Seq<char>) -> bool {
    &&& lists_occupants(c.presence, after, addr)
    &&& exit_known(root, addr) ==> holds_exit(root, c.holder, addr)
}

/// Whether `list` names the occupants of the room named `name`, if there is one.
pub open spec fn lists_occupants(
    list: Seq<PresenceView>,
    root: RootView,
    name: Seq<char>,
) -> bool {
    room_key(root, name) is Some ==> lists_presence(
        list,
        root.entities[room_key(root, name)->0].presence,
    )
}

/// The address inside the runtime that a request is sent to.
pub open spec fn local_address(request: RequestView) -> Seq<char> {
    match request.fragment {
        Some(fragment) => "#"@ + fragment,
        None => Seq::empty(),
    }
}

pub open spec fn answer(from_actor: Seq<char>, term: TermView) -> DecisionView {
    DecisionView::Answer {
        effect: EffectView::Nothing,
        reply: ReplyView { from_actor, term },
    }
}

/// The `i`th argument, or nothing.
pub open spec fn arg(args: Seq<Seq<char>>, i: int) -> Seq<char> {
    if i < args.len() {
        args[i]
    } else {
        Seq::empty()
    }
}

/// Entering a room whose channel is switched on is itself the join; otherwise
/// the reply goes out at once.
pub open spec fn join_or_answer(
    root: RootView,
    room: Seq<char>,
    did: Seq<char>,
    nick: Seq<char>,
    reply: ReplyView,
) -> DecisionView {
    match room_key(root, room) {
        Some(f) => match joinable(root.entities[f]) {
            Some(binding) => DecisionView::Join { room, fragment: f, binding, did, nick, reply },
            None => DecisionView::Answer { effect: EffectView::Nothing, reply },
        },
        None => DecisionView::Answer { effect: EffectView::Nothing, reply },
    }
}

/// The answer to a `dig`: a room of this runtime is entered like any other; a
/// foreign one is the address that the client should enter next.
pub open spec fn dig_answer(
    root: RootView,
    runtime: Seq<char>,
    did: Seq<char>,
    from_actor: Seq<char>,
    result: Result<DigView, Seq<char>>,
) -> DecisionView {
    match result {
        Err(error) => answer(from_actor, command_tree(Err(error))),
        Ok(DigView::Local { fragment, name, description }) => join_or_answer(
            root,
            fragment,
            did,
            Seq::empty(),
            ReplyView {
                from_actor,
                term: enter_tree(runtime + fragment, Seq::empty(), name, description),
            },
        ),
        Ok(DigView::Foreign { target, label }) => answer(
            from_actor,
            enter_tree(target, Seq::empty(), label, Seq::empty()),
        ),
    }
}

/// The answer to a `:look` at the room named `name`.
pub open spec fn look_answer(
    root: RootView,
    runtime: Seq<char>,
    name: Seq<char>,
    missing: Seq<char>,
    from_actor: Seq<char>,
    presence: Seq<PresenceView>,
) -> DecisionView {
    match room_key(root, name) {
        Some(f) => answer(
            from_actor,
            room_tree(root, runtime, snapshot_of(root.entities[f], presence)),
        ),
        None => answer(from_actor, command_tree(Err(missing))),
    }
}

/// A request to the concourse.
pub open spec fn concourse_request(
    root: RootView,
    request: RequestView,
    runtime: Seq<char>,
    verb: Seq<char>,
    args: Seq<Seq<char>>,
    c: Chance,
) -> (RootView, Result<DecisionView, Seq<char>>) {
    let from_actor = runtime + "#concourse"@;
    if verb == ":enter"@ {
        match enter_step(root, request.from, concourse(), "{}"@) {
            (after, Err(error)) => (after, Err(error)),
            (after, Ok(_)) => match room_key(after, concourse()) {
                None => (after, Err("concourse room missing"@)),
                Some(f) => (
                    after,
                    Ok(
                        answer(
                            from_actor,
                            enter_tree(
                                from_actor,
                                arg(args, 0),
                                after.entities[f].label,
                                room_description(after.entities[f]),
                            ),
                        ),
                    ),
                ),
            },
        }
    } else if verb == ":dig"@ {
        match dig_spec(args) {
            Err(error) => (root, Ok(answer(from_actor, command_tree(Err(error))))),
            Ok(spec_) => {
                let (after, result) = dig_or_enter_step(
                    root,
                    request.from,
                    spec_,
                    c.room,
                    c.exit,
                );
                (after, Ok(dig_answer(after, runtime, request.from, from_actor, result)))
            },
        }
    } else if verb == ":look"@ {
        (
            root,
            Ok(
                look_answer(
                    root,
                    runtime,
                    concourse(),
                    "concourse room missing"@,
                    from_actor,
                    c.presence,
                ),
            ),
        )
    } else {
        let (after, result) = concourse_command_step(
            root,
            request.from,
            command_line(verb, args),
            c.room,
            c.exit,
        );
        // The bridge of a room that was deleted is stopped.
        let doomed = if (verb == ":delete"@ || verb == ":del"@) && args.len() > 0 {
            resolve(root, args[0])
        } else {
            None
        };
        let effect = if result is Ok && doomed is Some {
            EffectView::StopBridge { fragment: doomed->0 }
        } else {
            EffectView::Nothing
        };
        (
            after,
            Ok(
                DecisionView::Answer {
                    effect,
                    reply: ReplyView { from_actor, term: command_tree(result) },
                },
            ),
        )
    }
}

/// A request to the root itself.
pub open spec fn root_request(
    root: RootView,
    request: RequestView,
    runtime: Seq<char>,
    verb: Seq<char>,
    args: Seq<Seq<char>>,
) -> (RootView, Result<DecisionView, Seq<char>>) {
    let from_actor = runtime + "#root"@;
    if verb == ":enter"@ {
        let target = if args.len() > 0 && trim(args[0]).len() > 0 {
            args[0]
        } else {
            "#concourse"@
        };
        match enter_step(root, request.from, target, "{}"@) {
            (after, Err(error)) => (after, Err(error)),
            (after, Ok(_)) => match room_key(after, target) {
                None => (after, Err("target room missing"@)),
                Some(f) => {
                    let room = after.entities[f];
                    let parent = if "did:ma:"@.is_prefix_of(target) {
                        target
                    } else {
                        runtime + room.fragment
                    };
                    let reply = ReplyView {
                        from_actor,
                        term: enter_tree(
                            parent,
                            arg(args, 1),
                            room.label,
                            room_description(room),
                        ),
                    };
                    (
                        after,
                        Ok(join_or_answer(after, target, request.from, arg(args, 1), reply)),
                    )
                },
            },
        }
    } else {
        (
            root,
            Ok(
                answer(
                    from_actor,
                    command_tree(
                        Err("unsupported #root command '"@ + verb + "' (try: :enter)"@),
                    ),
                ),
            ),
        )
    }
}

/// A request to an exit.
pub open spec fn exit_request(
    root: RootView,
    request: RequestView,
    runtime: Seq<char>,
    verb: Seq<char>,
    holder: Seq<char>,
) -> DecisionView {
    let addr = local_address(request);
    let did = match traveller(request.term) {
        Some(did) => did,
        None => request.from,
    };
    answer(
        runtime + addr,
        if verb == ":traverse"@ {
            traverse_tree(traversed(root, holder, addr, did, runtime))
        } else {
            command_tree(Err("unknown exit command '"@ + verb + "' (try: :traverse)"@))
        },
    )
}

/// What speech in a room comes to: it goes to the channel where the room is
/// connected, and to the occupants where it is not.
pub open spec fn speech_effect(
    room: RoomView,
    addr: Seq<char>,
    from: Seq<char>,
    runtime: Seq<char>,
    text: Seq<char>,
    emote: bool,
    bridged: bool,
    presence: Seq<PresenceView>,
) -> (EffectView, Result<Seq<char>, Seq<char>>) {
    if joinable(room) is Some {
        if !(room.irc_active && room.irc_mirrors.contains_key(from)) {
            (
                EffectView::Nothing,
                Err("not connected to the IRC channel; use :irc-connect"@),
            )
        } else if !bridged {
            (
                EffectView::Nothing,
                Err("IRC channel is not active in this room; use :irc-connect"@),
            )
        } else {
            (
                EffectView::Speak { fragment: addr, did: from, text, emote },
                Ok("sent to "@ + joinable(room)->0.channel),
            )
        }
    } else if !room.presence.contains_key(from) {
        (EffectView::Nothing, Err("sender is not in the room"@))
    } else {
        let from_actor = room_url(runtime, addr);
        let verb = if emote {
            ":emote"@
        } else {
            ":say"@
        };
        (
            EffectView::Broadcast {
                from_actor,
                term: event_tree(
                    verb,
                    presence_tree(from_actor, room.presence[from], None),
                    Some(text),
                ),
                presence,
            },
            Ok("ok"@),
        )
    }
}

/// What follows a command that a room obeyed.
pub open spec fn command_effect(
    root: RootView,
    addr: Seq<char>,
    from: Seq<char>,
    runtime: Seq<char>,
    verb: Seq<char>,
    args: Seq<Seq<char>>,
    text: Seq<char>,
    bridged: bool,
    presence: Seq<PresenceView>,
) -> (EffectView, Result<Seq<char>, Seq<char>>) {
    let f = room_key(root, addr)->0;
    let room = root.entities[f];
    if verb == ":irc-connect"@ {
        match joinable(room) {
            Some(binding) => (
                EffectView::ConnectOccupants { fragment: f, binding, presence },
                Ok(text),
            ),
            None => (EffectView::Nothing, Ok(text)),
        }
    } else if verb == ":say"@ || verb == ":emote"@ {
        speech_effect(
            room,
            addr,
            from,
            runtime,
            join(args, " "@),
            verb == ":emote"@,
            bridged,
            presence,
        )
    } else if verb == ":irc-disconnect"@ {
        (EffectView::SwitchOff { fragment: addr }, Ok(text))
    } else if verb == ":leave"@ {
        (EffectView::Disconnect { fragment: addr, did: from }, Ok(text))
    } else {
        (EffectView::Nothing, Ok(text))
    }
}

/// A request to a room.
pub open spec fn room_request(
    root: RootView,
    request: RequestView,
    runtime: Seq<char>,
    verb: Seq<char>,
    args: Seq<Seq<char>>,
    bridged: bool,
    c: Chance,
) -> (RootView, Result<DecisionView, Seq<char>>) {
    let addr = local_address(request);
    if verb == ":enter"@ {
        match enter_step(root, request.from, addr, arg(args, 0)) {
            (after, Err(error)) => (after, Ok(answer(request.to, command_tree(Err(error))))),
            (after, Ok(_)) => (
                after,
                Ok(
                    join_or_answer(
                        after,
                        addr,
                        request.from,
                        arg(args, 0),
                        ReplyView {
                            from_actor: request.to,
                            term: did_enter_tree(request.from, request.to, arg(args, 0)),
                        },
                    ),
                ),
            ),
        }
    } else if verb == ":look"@ {
        (
            root,
            Ok(look_answer(root, runtime, addr, "entity not found"@, request.to, c.presence)),
        )
    } else if verb == ":dig"@ {
        match dig_spec(args) {
            Err(error) => (root, Ok(answer(request.to, command_tree(Err(error))))),
            Ok(spec_) => {
                let (after, result) = dig_from_step(
                    root,
                    request.from,
                    addr,
                    spec_,
                    c.room,
                    c.exit,
                );
                (after, Ok(dig_answer(after, runtime, request.from, request.to, result)))
            },
        }
    } else {
        let (after, result) = room_command_step(
            root,
            request.from,
            addr,
            command_line(verb, args),
        );
        let (effect, told) = match result {
            Err(error) => (EffectView::Nothing, Err(error)),
            Ok(text) => command_effect(
                after,
                addr,
                request.from,
                runtime,
                verb,
                args,
                text,
                bridged,
                c.presence,
            ),
        };
        (
            after,
            Ok(
                DecisionView::Answer {
                    effect,
                    reply: ReplyView { from_actor: runtime + addr, term: command_tree(told) },
                },
            ),
        )
    }
}

/// The actor that answers a ping: the one that was addressed.
pub open spec fn pinged(request: RequestView, runtime: Seq<char>) -> Seq<char> {
    match request.fragment {
        Some(fragment) => if trim(fragment).len() > 0 {
            runtime + "#"@ + fragment
        } else {
            runtime
        },
        None => runtime,
    }
}

/// What is done about a request. `bridged` says whether the addressed room has
/// a bridge. Where there is an error, nothing is answered.
pub open spec fn dispatched(
    root: RootView,
    request: RequestView,
    runtime: Seq<char>,
    bridged: bool,
    c: Chance,
) -> (RootView, Result<DecisionView, Seq<char>>) {
    match request_of(request.term) {
        Err(error) => (root, Err(error)),
        Ok((verb, args)) => if verb == ":ping"@ {
            (root, Ok(answer(pinged(request, runtime), TermView::Text(":pong"@))))
        } else {
            match request.fragment {
                None => (root, Ok(DecisionView::Ignore)),
                Some(fragment) => if fragment == "concourse"@ {
                    concourse_request(root, request, runtime, verb, args, c)
                } else if fragment == "root"@ {
                    root_request(root, request, runtime, verb, args)
                } else if exit_known(root, local_address(request)) {
                    (root, Ok(exit_request(root, request, runtime, verb, c.holder)))
                } else {
                    room_request(root, request, runtime, verb, args, bridged, c)
                },
            }
        },
    }
}

fn reply_of(from_actor: String, term: Term) -> (r: Decision)
    ensures
        r@ == answer(from_actor@, term@),
{
    Decision::Answer { effect: Effect::Nothing, reply: Reply { from_actor, term } }
}

fn arg_or_nothing(args: &Vec<String>, i: usize) -> (r: String)
    ensures
        r@ == arg(texts(args@), i as int),
{
    if i < args.len() {
        args[i].clone()
    } else {
        String::new()
    }
}

fn decide_join(root: &RootActor, room: &str, did: &str, nick: &str, reply: Reply) -> (r: Decision)
    ensures
        r@ == join_or_answer(root@, room@, did@, nick@, reply@),
{
    match root.room_irc_joinable(room) {
        Some((fragment, binding, _)) => Decision::Join {
            room: room.to_owned(),
            fragment,
            binding,
            did: did.to_owned(),
            nick: nick.to_owned(),
            reply,
        },
        None => Decision::Answer { effect: Effect::Nothing, reply },
    }
}

fn decide_dig(
    root: &RootActor,
    runtime_did: &str,
    did: &str,
    from_actor: String,
    result: Result<DigOutcome, Error>,
) -> (r: Decision)
    ensures
        r@ == dig_answer(root@, runtime_did@, did@, from_actor@, outcome(result)),
{
    match result {
        Err(error) => reply_of(from_actor, command_term(Err(error))),
        Ok(DigOutcome::Local { fragment, name, description }) => {
            let parent = runtime_did.to_owned().concat(fragment.as_str());
            let term = enter_term(parent.as_str(), no_text(), name.as_str(), description.as_str());
            decide_join(root, fragment.as_str(), did, no_text(), Reply { from_actor, term })
        },
        Ok(DigOutcome::Foreign { target, label }) => reply_of(
            from_actor,
            enter_term(target.as_str(), no_text(), label.as_str(), no_text()),
        ),
    }
}

/// The answer to a `:look`, and the order in which it walks the occupants.
fn decide_look(
    root: &RootActor,
    runtime_did: &str,
    name: &str,
    missing: &str,
    from_actor: String,
) -> (r: (Decision, Ghost<Seq<PresenceView>>))
    ensures
        r.0@ == look_answer(root@, runtime_did@, name@, missing@, from_actor@, r.1@),
        lists_occupants(r.1@, root@, name@),
{
    match root.room_snapshot(name) {
        Some(snapshot) => {
            let ghost order = snapshot@.presence;
            let term = room_ctx_term(runtime_did, root, &snapshot);
            (reply_of(from_actor, term), Ghost(order))
        },
        None => (
            reply_of(from_actor, command_term(Err(Error::of(missing)))),
            Ghost(Seq::empty()),
        ),
    }
}

fn dig_words(args: &Vec<String>) -> (r: Result<RoomSpec, Error>)
    ensures
        outcome(r) == dig_spec(texts(args@)),
{
    let borrowed = borrow_texts(args);
    RoomSpec::from_tokens(borrowed.as_slice())
}

fn decide_concourse(
    root: &mut RootActor,
    request: &Request,
    runtime_did: &str,
    verb: &str,
    args: &Vec<String>,
    room: String,
    exit: String,
) -> (r: (Result<Decision, Error>, Ghost<Seq<PresenceView>>))
    ensures
        forall|holder: Seq<char>|
            (final(root)@, outcome(r.0)) == #[trigger] concourse_request(
                old(root)@,
                request@,
                runtime_did@,
                verb@,
                texts(args@),
                (Chance { room: room@, exit: exit@, presence: r.1@, holder }),
            ),
        lists_occupants(r.1@, final(root)@, concourse()),
{
    let from_actor = runtime_did.to_owned().concat("#concourse");
    if same_text(verb, ":enter") {
        match root.enter_entity(request.from.as_str(), CONCOURSE_ROOM, "{}") {
            Ok(_) => {},
            Err(error) => {
                return (Err(error), root.walk(CONCOURSE_ROOM));
            },
        }
        let order = root.walk(CONCOURSE_ROOM);
        match root.find_room(CONCOURSE_ROOM) {
            Some((_, concourse_room)) => {
                let nick = arg_or_nothing(args, 0);
                let term = enter_term(
                    from_actor.as_str(),
                    nick.as_str(),
                    concourse_room.label.as_str(),
                    concourse_room.description(),
                );
                (Ok(reply_of(from_actor, term)), order)
            },
            None => (Err(Error::of("concourse room missing")), order),
        }
    } else if same_text(verb, ":dig") {
        match dig_words(args) {
            Ok(spec_) => {
                let result = root.dig_or_enter_at(request.from.as_str(), spec_, room, exit);
                let decision = decide_dig(
                    root,
                    runtime_did,
                    request.from.as_str(),
                    from_actor,
                    result,
                );
                (Ok(decision), root.walk(CONCOURSE_ROOM))
            },
            Err(error) => (
                Ok(reply_of(from_actor, command_term(Err(error)))),
                root.walk(CONCOURSE_ROOM),
            ),
        }
    } else if same_text(verb, ":look") {
        let (decision, order) = decide_look(
            root,
            runtime_did,
            CONCOURSE_ROOM,
            "concourse room missing",
            from_actor,
        );
        (Ok(decision), order)
    } else {
        let command = command_input(verb, args);
        // A room to be deleted is looked up before it is gone.
        let doomed = if (same_text(verb, ":delete") || same_text(verb, ":del")) && args.len() > 0 {
            assert(texts(args@)[0] == args@[0]@);
            root.fragment_for(args[0].as_str())
        } else {
            None
        };
        let result = root.concourse_command_at(
            request.from.as_str(),
            command.as_str(),
            room,
            exit,
        );
        let effect = match (&result, doomed) {
            (Ok(_), Some(fragment)) => Effect::StopBridge { fragment },
            _ => Effect::Nothing,
        };
        let reply = Reply { from_actor, term: command_term(result) };
        (Ok(Decision::Answer { effect, reply }), root.walk(CONCOURSE_ROOM))
    }
}

fn decide_root(
    root: &mut RootActor,
    request: &Request,
    runtime_did: &str,
    verb: &str,
    args: &Vec<String>,
) -> (r: Result<Decision, Error>)
    ensures
        (final(root)@, outcome(r)) == root_request(
            old(root)@,
            request@,
            runtime_did@,
            verb@,
            texts(args@),
        ),
{
    let from_actor = runtime_did.to_owned().concat("#root");
    if !same_text(verb, ":enter") {
        let error = Error::new(
            "unsupported #root command '".to_owned().concat(verb).concat("' (try: :enter)"),
        );
        return Ok(reply_of(from_actor, command_term(Err(error))));
    }
    let target = if args.len() > 0 && !trimmed(args[0].as_str()).is_empty() {
        args[0].as_str()
    } else {
        CONCOURSE_ROOM
    };
    proof {
        if args@.len() > 0 {
            assert(texts(args@)[0] == args@[0]@);
        }
    }
    let nick = arg_or_nothing(args, 1);
    match root.enter_entity(request.from.as_str(), target, "{}") {
        Ok(_) => {},
        Err(error) => {
            return Err(error);
        },
    }
    match root.find_room(target) {
        Some((_, room)) => {
            let parent = if starts_with(target, "did:ma:") {
                target.to_owned()
            } else {
                runtime_did.to_owned().concat(room.fragment.as_str())
            };
            let term = enter_term(
                parent.as_str(),
                nick.as_str(),
                room.label.as_str(),
                room.description(),
            );
            let reply = Reply { from_actor, term };
            Ok(decide_join(root, target, request.from.as_str(), nick.as_str(), reply))
        },
        None => Err(Error::of("target room missing")),
    }
}

/// The answer of an exit, if the request is sent to one.
fn decide_exit(root: &RootActor, request: &Request, runtime_did: &str, verb: &str, addr: &str) -> (r:
    Option<Decision>)
    requires
        addr@ == local_address(request@),
    ensures
        match r {
            Some(decision) => exit_known(root@, addr@) && decision@ == exit_request(
                root@,
                request@,
                runtime_did@,
                verb@,
                root.holder(addr@),
            ),
            None => !exit_known(root@, addr@),
        },
{
    let from_actor = runtime_did.to_owned().concat(addr);
    let did = traversal_did(&request.term);
    let traveller_did = match &did {
        Some(did) => Some(did.as_str()),
        None => None,
    };
    match root.exit_traverse(addr, request.from.as_str(), traveller_did, runtime_did) {
        Ok(reply) => {
            let term = if same_text(verb, ":traverse") {
                traverse_term(&reply)
            } else {
                let error = Error::new(
                    "unknown exit command '".to_owned().concat(verb).concat(
                        "' (try: :traverse)",
                    ),
                );
                command_term(Err(error))
            };
            Some(reply_of(from_actor, term))
        },
        Err(_) => None,
    }
}

/// What speech in a room comes to, and the order in which the occupants are
/// walked.
fn decide_speech(
    room: &RoomActor,
    from: &str,
    runtime_did: &str,
    addr: &str,
    text: String,
    emote: bool,
    bridged: bool,
) -> (r: (Effect, Result<String, Error>, Ghost<Seq<PresenceView>>))
    ensures
        (r.0@, outcome(r.1)) == speech_effect(
            room@,
            addr@,
            from@,
            runtime_did@,
            text@,
            emote,
            bridged,
            r.2@,
        ),
        lists_presence(r.2@, room@.presence),
{
    let presence = room.presence_list();
    let ghost walked = presence_views(presence@);
    match room.joinable_binding() {
        Some(binding) => {
            if !(room.irc_active && room.irc_has_mirror(from)) {
                return (
                    Effect::Nothing,
                    Err(Error::of("not connected to the IRC channel; use :irc-connect")),
                    Ghost(walked),
                );
            }
            if !bridged {
                return (
                    Effect::Nothing,
                    Err(Error::of("IRC channel is not active in this room; use :irc-connect")),
                    Ghost(walked),
                );
            }
            let told = "sent to ".to_owned().concat(binding.channel.as_str());
            let effect = Effect::Speak {
                fragment: addr.to_owned(),
                did: from.to_owned(),
                text,
                emote,
            };
            (effect, Ok(told), Ghost(walked))
        },
        None => match room.presence.get(from) {
            Some(record) => {
                let from_actor = room_actor_url(runtime_did, addr);
                let ctx = child_ctx_for_presence(from_actor.as_str(), record, None);
                let verb = if emote {
                    ":emote"
                } else {
                    ":say"
                };
                let term = event_term(verb, ctx, Some(text.as_str()));
                let effect = Effect::Broadcast { from_actor, term, presence };
                (effect, Ok("ok".to_owned()), Ghost(walked))
            },
            None => (
                Effect::Nothing,
                Err(Error::of("sender is not in the room")),
                Ghost(walked),
            ),
        },
    }
}

/// What follows a command that a room obeyed, and the order in which the
/// occupants are walked.
fn decide_effect(
    root: &RootActor,
    from: &str,
    runtime_did: &str,
    verb: &str,
    args: &Vec<String>,
    addr: &str,
    text: String,
    bridged: bool,
) -> (r: (Effect, Result<String, Error>, Ghost<Seq<PresenceView>>))
    requires
        room_key(root@, addr@) is Some,
    ensures
        (r.0@, outcome(r.1)) == command_effect(
            root@,
            addr@,
            from@,
            runtime_did@,
            verb@,
            texts(args@),
            text@,
            bridged,
            r.2@,
        ),
        lists_occupants(r.2@, root@, addr@),
{
    if same_text(verb, ":irc-connect") {
        match root.room_irc_joinable(addr) {
            Some((fragment, binding, presence)) => {
                let ghost walked = presence_views(presence@);
                (
                    Effect::ConnectOccupants { fragment, binding, presence },
                    Ok(text),
                    Ghost(walked),
                )
            },
            None => (Effect::Nothing, Ok(text), root.walk(addr)),
        }
    } else if same_text(verb, ":say") || same_text(verb, ":emote") {
        let emote = same_text(verb, ":emote");
        let speech = join_all(args, " ");
        match root.find_room(addr) {
            Some((_, room)) => decide_speech(
                room,
                from,
                runtime_did,
                addr,
                speech,
                emote,
                bridged,
            ),
            None => vstd::pervasive::unreached(),
        }
    } else if same_text(verb, ":irc-disconnect") {
        (Effect::SwitchOff { fragment: addr.to_owned() }, Ok(text), root.walk(addr))
    } else if same_text(verb, ":leave") {
        (
            Effect::Disconnect { fragment: addr.to_owned(), did: from.to_owned() },
            Ok(text),
            root.walk(addr),
        )
    } else {
        (Effect::Nothing, Ok(text), root.walk(addr))
    }
}

fn decide_room(
    root: &mut RootActor,
    request: &Request,
    runtime_did: &str,
    verb: &str,
    args: &Vec<String>,
    addr: &str,
    bridged: bool,
    room: String,
    exit: String,
) -> (r: (Result<Decision, Error>, Ghost<Seq<PresenceView>>))
    requires
        addr@ == local_address(request@),
    ensures
        forall|holder: Seq<char>|
            (final(root)@, outcome(r.0)) == #[trigger] room_request(
                old(root)@,
                request@,
                runtime_did@,
                verb@,
                texts(args@),
                bridged,
                (Chance { room: room@, exit: exit@, presence: r.1@, holder }),
            ),
        lists_occupants(r.1@, final(root)@, addr@),
{
    if same_text(verb, ":enter") {
        let nick = arg_or_nothing(args, 0);
        match root.enter_entity(request.from.as_str(), addr, nick.as_str()) {
            Ok(_) => {
                let reply = Reply {
                    from_actor: request.to.clone(),
                    term: did_enter_term(
                        request.from.as_str(),
                        request.to.as_str(),
                        nick.as_str(),
                    ),
                };
                let decision = decide_join(
                    root,
                    addr,
                    request.from.as_str(),
                    nick.as_str(),
                    reply,
                );
                (Ok(decision), root.walk(addr))
            },
            Err(error) => (
                Ok(reply_of(request.to.clone(), command_term(Err(error)))),
                root.walk(addr),
            ),
        }
    } else if same_text(verb, ":look") {
        let (decision, order) = decide_look(
            root,
            runtime_did,
            addr,
            "entity not found",
            request.to.clone(),
        );
        (Ok(decision), order)
    } else if same_text(verb, ":dig") {
        match dig_words(args) {
            Ok(spec_) => {
                let result = root.dig_from_room_at(
                    request.from.as_str(),
                    addr,
                    spec_,
                    room,
                    exit,
                );
                let decision = decide_dig(
                    root,
                    runtime_did,
                    request.from.as_str(),
                    request.to.clone(),
                    result,
                );
                (Ok(decision), root.walk(addr))
            },
            Err(error) => (
                Ok(reply_of(request.to.clone(), command_term(Err(error)))),
                root.walk(addr),
            ),
        }
    } else {
        let command = command_input(verb, args);
        let from_actor = runtime_did.to_owned().concat(addr);
        let result = root.room_command(request.from.as_str(), addr, command.as_str());
        let (effect, told, order) = match result {
            Ok(text) => decide_effect(
                root,
                request.from.as_str(),
                runtime_did,
                verb,
                args,
                addr,
                text,
                bridged,
            ),
            Err(error) => (Effect::Nothing, Err(error), root.walk(addr)),
        };
        let reply = Reply { from_actor, term: command_term(told) };
        (Ok(Decision::Answer { effect, reply }), order)
    }
}

fn ping_actor(request: &Request, runtime_did: &str) -> (r: String)
    ensures
        r@ == pinged(request@, runtime_did@),
{
    match &request.fragment {
        Some(fragment) => if !trimmed(fragment.as_str()).is_empty() {
            runtime_did.to_owned().concat("#").concat(fragment.as_str())
        } else {
            runtime_did.to_owned()
        },
        None => runtime_did.to_owned(),
    }
}

/// Decide what to do about a request, and bring the root up to date. `bridged`
/// says whether the addressed room has a bridge.
pub fn handle_request(
    root: &mut RootActor,
    request: &Request,
    runtime_did: &str,
    bridged: bool,
) -> (r: Result<Decision, Error>)
    ensures
        exists|c: Chance|
            drawn(old(root)@, c.room, c.exit) && c.holder == old(root).holder(
                local_address(request@),
            ) && possible(
                c,
                old(root)@,
                final(root)@,
                local_address(request@),
            ) && (final(root)@, outcome(r)) == #[trigger] dispatched(
                old(root)@,
                request@,
                runtime_did@,
                bridged,
                c,
            ),
{
    let room = root.generate_fragment();
    let exit = draw_exit_fragment();
    assert(drawn(root@, room@, exit@));
    handle_request_at(root, request, runtime_did, bridged, room, exit)
}

/// As `handle_request`, with the addresses of a new room and of a new exit
/// given.
pub fn handle_request_at(
    root: &mut RootActor,
    request: &Request,
    runtime_did: &str,
    bridged: bool,
    room: String,
    exit: String,
) -> (r: Result<Decision, Error>)
    ensures
        exists|c: Chance|
            c.room == room@ && c.exit == exit@ && c.holder == old(root).holder(
                local_address(request@),
            ) && possible(
                c,
                old(root)@,
                final(root)@,
                local_address(request@),
            ) && (final(root)@, outcome(r)) == #[trigger] dispatched(
                old(root)@,
                request@,
                runtime_did@,
                bridged,
                c,
            ),
{
    let ghost before = root@;
    let ghost room_address = room@;
    let ghost exit_address = exit@;
    let addr = match &request.fragment {
        Some(fragment) => "#".to_owned().concat(fragment.as_str()),
        None => String::new(),
    };
    let holder = root.holder_of(addr.as_str());
    let (result, order): (Result<Decision, Error>, Ghost<Seq<PresenceView>>) = match parse_term(&request.term) {
        Err(error) => (Err(error), root.walk(addr.as_str())),
        Ok((verb, args)) => if same_text(verb.as_str(), ":ping") {
            let reply = reply_of(ping_actor(request, runtime_did), text_term(":pong"));
            (Ok(reply), root.walk(addr.as_str()))
        } else {
            match &request.fragment {
                None => (Ok(Decision::Ignore), root.walk(addr.as_str())),
                Some(fragment) => {
                    if same_text(fragment.as_str(), "concourse") {
                        proof {
                            reveal_strlit("#");
                            reveal_strlit("concourse");
                            reveal_strlit("#concourse");
                            assert("#"@ + "concourse"@ =~= "#concourse"@);
                        }
                        let (result, order) = decide_concourse(
                            root,
                            request,
                            runtime_did,
                            verb.as_str(),
                            &args,
                            room,
                            exit,
                        );
                        (result, order)
                    } else if same_text(fragment.as_str(), "root") {
                        let result = decide_root(
                            root,
                            request,
                            runtime_did,
                            verb.as_str(),
                            &args,
                        );
                        (result, root.walk(addr.as_str()))
                    } else {
                        match decide_exit(
                            root,
                            request,
                            runtime_did,
                            verb.as_str(),
                            addr.as_str(),
                        ) {
                            Some(decision) => (Ok(decision), root.walk(addr.as_str())),
                            None => {
                                let (result, order) = decide_room(
                                    root,
                                    request,
                                    runtime_did,
                                    verb.as_str(),
                                    &args,
                                    addr.as_str(),
                                    bridged,
                                    room,
                                    exit,
                                );
                                (result, order)
                            },
                        }
                    }
                },
            }
        },
    };
    proof {
        let c = Chance {
            room: room_address,
            exit: exit_address,
            presence: order@,
            holder: holder@,
        };
        assert(possible(c, before, root@, local_address(request@)));
        assert((root@, outcome(result)) == dispatched(before, request@, runtime_did@, bridged, c));
    }
    result
}

// ---- a join that failed ----

/// A term for an actor that did not ask for one.
#[derive(Debug)]
pub struct Notice {
    pub from_actor: String,
    pub to: String,
    pub term: Term,
}

/// What a `Notice` holds.
pub struct NoticeView {
    pub from_actor: Seq<char>,
    pub to: Seq<char>,
    pub term: TermView,
}

impl View for Notice {
    type V = NoticeView;

    open spec fn view(&self) -> NoticeView {
        NoticeView { from_actor: self.from_actor@, to: self.to@, term: self.term@ }
    }
}

/// The fragment that a name stands for, or the name itself.
pub open spec fn fragment_or_name(root: RootView, name: Seq<char>) -> Seq<char> {
    match resolve(root, name) {
        Some(f) => f,
        None => name,
    }
}

/// A room that `did` could not join: who is on the channel already stays in the
/// room under the nick it has there, anyone else is out of the room again.
pub open spec fn rolled_back(room: RoomView, did: Seq<char>) -> RoomView {
    if room.irc_mirrors.contains_key(did) {
        if entry_refusal(room, did) is None {
            entered(room, did, room.irc_mirrors[did])
        } else {
            room
        }
    } else {
        left(room, did)
    }
}

/// What is told to an occupant whose nick the channel refuses.
pub open spec fn rejection(
    runtime: Seq<char>,
    fragment: Seq<char>,
    label: Seq<char>,
    did: Seq<char>,
) -> NoticeView {
    let room_actor = room_url(runtime, fragment);
    NoticeView {
        from_actor: room_actor,
        to: did,
        term: event_tree(
            ":say"@,
            speaking_room_tree(runtime, room_actor, label),
            Some("your nick cannot be accepted"@),
        ),
    }
}

/// The root after `did` could not join the channel of the room named `name`,
/// and what it is told.
pub open spec fn join_failure(
    root: RootView,
    runtime: Seq<char>,
    name: Seq<char>,
    did: Seq<char>,
) -> (RootView, NoticeView) {
    let fragment = fragment_or_name(root, name);
    match room_key(root, fragment) {
        Some(f) => (
            with_room(root, f, rolled_back(root.entities[f], did)),
            rejection(runtime, fragment, root.entities[f].label, did),
        ),
        None => (root, rejection(runtime, fragment, fragment, did)),
    }
}

/// Entry into a channel room is itself a join. On join failure, roll back the
/// just-committed presence and tell the caller their nick could not be accepted;
/// the entry itself is answered with the error.
pub fn join_failed(
    root: &mut RootActor,
    runtime_did: &str,
    room: &str,
    did: &str,
    reply: Reply,
    error: Error,
) -> (r: (Notice, Reply))
    ensures
        (final(root)@, r.0@) == join_failure(old(root)@, runtime_did@, room@, did@),
        r.1@ == (ReplyView {
            from_actor: reply@.from_actor,
            term: command_tree(Err(error@)),
        }),
{
    let fragment = match root.fragment_for(room) {
        Some(fragment) => fragment,
        None => room.to_owned(),
    };
    let label = match root.entity_mut(fragment.as_str()) {
        Some(room) => {
            // A re-entry whose nick change was rejected keeps the previous,
            // still-valid nick; a first entry that failed has no prior
            // presence to restore and is simply removed.
            let previous = match room.irc_mirror_nick(did) {
                Some(nick) => Some(nick.to_owned()),
                None => None,
            };
            match previous {
                Some(nick) => {
                    let _ = room.enter(did, nick.as_str());
                },
                None => {
                    room.leave(did);
                },
            }
            room.label.clone()
        },
        None => fragment.clone(),
    };
    let room_actor = room_actor_url(runtime_did, fragment.as_str());
    let ctx = speaking_room(runtime_did, room_actor.as_str(), label.as_str());
    let term = event_term(":say", ctx, Some("your nick cannot be accepted"));
    let notice = Notice { from_actor: room_actor, to: did.to_owned(), term };
    (notice, Reply { from_actor: reply.from_actor, term: command_term(Err(error)) })
}

} // verus!
