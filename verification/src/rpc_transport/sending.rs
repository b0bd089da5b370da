//! What holds of everything that the runtime sends: it is made of values that the
//! wire format has, and every address in it is a full DID-URL.

use vstd::prelude::*;

use crate::bridge::{echo, kick_notice, room_event, speech_verb};
use crate::channel::dig::dig_spec;
use crate::channel::laws::accepted_dig_is_well_formed;
use crate::channel::line::EventView;
use crate::channel::room::{room_description, shown_nick, ExitView, PresenceView, RoomView};
use crate::root::laws::{
    every_resolved_address_is_full, lemma_prefix_kept, traverse_answers_full_addresses,
};
use crate::root::model::{
    concourse, concourse_command_step, dig_from_step, dig_or_enter_step, enter_step,
    room_command_step, room_key, traversed, DigView, RootView, TraverseView,
};
use crate::root::report::{snapshot_of, SnapshotView};
use crate::rpc_transport::dispatch::{
    arg, command_effect, concourse_request, dig_answer, dispatched, exit_request,
    fragment_or_name, join_failure, join_or_answer, local_address, look_answer, pinged,
    room_request, root_request, speech_effect, Chance, DecisionView, EffectView, ReplyView,
    RequestView,
};
use crate::rpc_transport::wire::{
    children_of, command_line, command_tree, did_enter_tree, enter_tree, event_tree, exit_child,
    fake_name, fake_tree, fake_url, ok_tree, person_tree, presence_tree, request_of, room_tree,
    room_url, speaking_room_tree, traveller, traverse_tree,
};
use crate::term::{entry, plain, TermView};
use crate::text::trim;

verus! {

// ---- full addresses ----

/// Whether a text begins as a DID does.
pub open spec fn is_did(s: Seq<char>) -> bool {
    "did:"@.is_prefix_of(s)
}

/// Whether a field of a record holds an address.
pub open spec fn holds_address(key: TermView) -> bool {
    ||| key == TermView::Text("actor"@)
    ||| key == TermView::Text("did"@)
    ||| key == TermView::Text("parent"@)
    ||| key == TermView::Text("exit"@)
    ||| key == TermView::Text("target-room"@)
}

/// Whether every address in a term is a full DID-URL.
pub open spec fn full(t: TermView) -> bool
    decreases t,
{
    match t {
        TermView::Array(items) => forall|i: int| 0 <= i < items.len() ==> full(#[trigger] items[i]),
        TermView::Record(entries) => forall|i: int|
            0 <= i < entries.len() ==> {
                let entry = #[trigger] entries[i];
                &&& full(entry.1)
                &&& holds_address(entry.0) ==> entry.1 is Text && is_did(entry.1->Text_0)
            },
        _ => true,
    }
}

/// Whether a term can be sent and, where those are given who are DIDs, holds full
/// addresses alone.
spec fn proper(t: TermView, dids: bool) -> bool {
    plain(t) && (dids ==> full(t))
}

proof fn lemma_address_keys()
    ensures
        !holds_address(TermView::Text("kind"@)),
        !holds_address(TermView::Text("protocol"@)),
        !holds_address(TermView::Text("name"@)),
        !holds_address(TermView::Text("nick"@)),
        !holds_address(TermView::Text("description"@)),
        !holds_address(TermView::Text("rev"@)),
        !holds_address(TermView::Text("direction"@)),
        !holds_address(TermView::Text("text"@)),
        !holds_address(TermView::Text("owner"@)),
        !holds_address(TermView::Text("children"@)),
        forall|s: Seq<char>| #[trigger] is_did(s) ==> !holds_address(TermView::Text(s)),
{
    reveal_strlit("actor");
    reveal_strlit("did");
    reveal_strlit("parent");
    reveal_strlit("exit");
    reveal_strlit("target-room");
    reveal_strlit("kind");
    reveal_strlit("protocol");
    reveal_strlit("name");
    reveal_strlit("nick");
    reveal_strlit("description");
    reveal_strlit("rev");
    reveal_strlit("direction");
    reveal_strlit("text");
    reveal_strlit("owner");
    reveal_strlit("children");
    reveal_strlit("did:");
    assert("actor"@.len() == 5 && "did"@.len() == 3 && "parent"@.len() == 6);
    assert("exit"@.len() == 4 && "target-room"@.len() == 11);
    assert("actor"@[0] == 'a' && "did"@[0] == 'd' && "parent"@[0] == 'p');
    assert("exit"@[0] == 'e' && "target-room"@[0] == 't');
    assert("kind"@[0] == 'k' && "protocol"@.len() == 8 && "name"@[0] == 'n');
    assert("nick"@[0] == 'n' && "description"@.len() == 11 && "description"@[0] == 'd');
    assert("rev"@[0] == 'r' && "direction"@.len() == 9);
    assert("text"@.len() == 4 && "text"@[0] == 't');
    assert("owner"@[0] == 'o' && "children"@.len() == 8);
    assert("did:"@.len() == 4 && "did:"@[0] == 'd');
    assert forall|s: Seq<char>| #[trigger] is_did(s) implies !holds_address(
        TermView::Text(s),
    ) by {
        assert(s.len() >= 4);
        assert(s.subrange(0, 4)[0] == s[0]);
    }
}

// ---- records ----

proof fn lemma_record(entries: Seq<(TermView, TermView)>, dids: bool)
    requires
        forall|i: int|
            0 <= i < entries.len() ==> plain((#[trigger] entries[i]).0) && proper(
                entries[i].1,
                dids,
            ),
        dids ==> forall|i: int|
            0 <= i < entries.len() && holds_address((#[trigger] entries[i]).0) ==> entries[i].1
                is Text && is_did(entries[i].1->Text_0),
    ensures
        proper(TermView::Record(entries), dids),
        proper(ok_tree(TermView::Record(entries)), dids),
{
    let record = TermView::Record(entries);
    assert(plain(record));
    assert(dids ==> full(record));
    let items = seq![TermView::Text(":ok"@), record];
    assert forall|i: int| 0 <= i < items.len() implies proper(#[trigger] items[i], dids) by {
        assert(items[i] == record || items[i] is Text);
    }
    assert(forall|i: int| 0 <= i < items.len() ==> plain(#[trigger] items[i]));
    assert(dids ==> forall|i: int| 0 <= i < items.len() ==> full(#[trigger] items[i]));
}

proof fn lemma_person(
    actor: Seq<char>,
    parent: Seq<char>,
    name: Seq<char>,
    description: Seq<char>,
    dids: bool,
)
    requires
        dids ==> is_did(actor) && is_did(parent),
    ensures
        proper(person_tree(actor, parent, name, description), dids),
        proper(ok_tree(person_tree(actor, parent, name, description)), dids),
{
    lemma_address_keys();
    lemma_record(person_tree(actor, parent, name, description)->Record_0, dids);
}

proof fn lemma_command(result: Result<Seq<char>, Seq<char>>, dids: bool)
    ensures
        proper(command_tree(result), dids),
{
    let items = command_tree(result)->Array_0;
    assert forall|i: int| 0 <= i < items.len() implies plain(#[trigger] items[i]) && full(
        items[i],
    ) by {
        assert(items[i] is Text);
    }
}

proof fn lemma_enter(
    parent: Seq<char>,
    nick: Seq<char>,
    name: Seq<char>,
    description: Seq<char>,
    dids: bool,
)
    requires
        dids ==> is_did(parent),
    ensures
        proper(enter_tree(parent, nick, name, description), dids),
{
    lemma_address_keys();
    lemma_record(enter_tree(parent, nick, name, description)->Array_0[1]->Record_0, dids);
}

proof fn lemma_traverse(reply: TraverseView, dids: bool)
    requires
        dids ==> is_did(reply.did) && is_did(reply.parent) && is_did(reply.exit),
    ensures
        proper(traverse_tree(reply), dids),
{
    lemma_address_keys();
    lemma_record(traverse_tree(reply)->Array_0[1]->Record_0, dids);
}

/// Whether every occupant in a list is named by a DID.
pub open spec fn all_dids(presence: Seq<PresenceView>) -> bool {
    forall|i: int| 0 <= i < presence.len() ==> is_did((#[trigger] presence[i]).did)
}

proof fn lemma_fake_url(runtime: Seq<char>, nick: Seq<char>)
    requires
        is_did(runtime),
    ensures
        is_did(fake_url(runtime, nick)),
{
    lemma_prefix_kept("did:"@, runtime, "#irc-"@);
    lemma_prefix_kept("did:"@, runtime + "#irc-"@, fake_name(nick));
}

proof fn lemma_exit_child(
    root: RootView,
    runtime: Seq<char>,
    room_actor: Seq<char>,
    exit: ExitView,
    dids: bool,
)
    requires
        dids ==> is_did(runtime) && is_did(room_actor),
    ensures
        proper(exit_child(root, runtime, room_actor, exit).1, dids),
        dids ==> is_did(runtime + exit.fragment),
{
    lemma_address_keys();
    if dids {
        lemma_prefix_kept("did:"@, runtime, exit.fragment);
        every_resolved_address_is_full(root, runtime, exit.target);
    }
    lemma_record(exit_child(root, runtime, room_actor, exit).1->Record_0, dids);
}

proof fn lemma_child(
    root: RootView,
    runtime: Seq<char>,
    snapshot: SnapshotView,
    i: int,
    dids: bool,
)
    requires
        dids ==> is_did(runtime) && all_dids(snapshot.presence),
        0 <= i < children_of(root, runtime, snapshot).len(),
    ensures
        ({
            let (key, child) = children_of(root, runtime, snapshot)[i];
            &&& key is Text
            &&& proper(child, dids)
            &&& dids ==> is_did(key->Text_0)
        }),
{
    let children = children_of(root, runtime, snapshot);
    let room_actor = room_url(runtime, snapshot.fragment);
    let n = snapshot.presence.len();
    let m = snapshot.exits.len();
    if dids {
        lemma_prefix_kept("did:"@, runtime, snapshot.fragment);
    }
    if i < n {
        let presence = snapshot.presence[i];
        assert(children[i] == (
            TermView::Text(presence.did),
            presence_tree(room_actor, presence, None),
        ));
        lemma_person(
            presence.did,
            room_actor,
            shown_nick(presence),
            "A direct DID presence."@,
            dids,
        );
    } else if i < n + m {
        let exit = snapshot.exits[i - n];
        assert(children[i] == exit_child(root, runtime, room_actor, exit));
        lemma_exit_child(root, runtime, room_actor, exit, dids);
    } else {
        let nick = snapshot.irc_occupants[i - n - m];
        assert(children[i] == (
            TermView::Text(fake_url(runtime, nick)),
            fake_tree(runtime, snapshot.fragment, nick),
        ));
        if dids {
            lemma_fake_url(runtime, nick);
        }
        lemma_person(
            fake_url(runtime, nick),
            room_actor,
            nick,
            "An IRC user in the channel."@,
            dids,
        );
    }
}

/// The children of a room are named by full DID-URLs.
pub proof fn children_have_full_addresses(
    root: RootView,
    runtime: Seq<char>,
    snapshot: SnapshotView,
    i: int,
)
    requires
        is_did(runtime),
        all_dids(snapshot.presence),
        0 <= i < children_of(root, runtime, snapshot).len(),
    ensures
        ({
            let (key, child) = children_of(root, runtime, snapshot)[i];
            &&& key is Text
            &&& is_did(key->Text_0)
            &&& full(child)
        }),
{
    lemma_child(root, runtime, snapshot, i, true);
}

proof fn lemma_room(root: RootView, runtime: Seq<char>, snapshot: SnapshotView, dids: bool)
    requires
        dids ==> is_did(runtime) && all_dids(snapshot.presence),
    ensures
        proper(room_tree(root, runtime, snapshot), dids),
{
    let children = children_of(root, runtime, snapshot);
    lemma_address_keys();
    assert forall|i: int| 0 <= i < children.len() implies plain((#[trigger] children[i]).0)
        && proper(children[i].1, dids) by {
        lemma_child(root, runtime, snapshot, i, dids);
    }
    if dids {
        assert forall|i: int|
            0 <= i < children.len() && holds_address((#[trigger] children[i]).0) implies children[i].1
            is Text && is_did(children[i].1->Text_0) by {
            lemma_child(root, runtime, snapshot, i, dids);
        }
        lemma_prefix_kept("did:"@, runtime, snapshot.fragment);
        lemma_prefix_kept("did:"@, runtime, "#root"@);
    }
    lemma_record(children, dids);
    let entries = room_tree(root, runtime, snapshot)->Array_0[1]->Record_0;
    assert forall|i: int| 0 <= i < entries.len() implies plain((#[trigger] entries[i]).0)
        && proper(entries[i].1, dids) by {
        if i == entries.len() - 1 {
            assert(entries[i] == entry("children"@, TermView::Record(children)));
        }
    }
    lemma_record(entries, dids);
}

// ---- replies ----

/// The term of a decision's reply.
pub open spec fn reply_term(decision: DecisionView) -> Option<TermView> {
    match decision {
        DecisionView::Ignore => None,
        DecisionView::Answer { effect, reply } => Some(reply.term),
        DecisionView::Join { room, fragment, binding, did, nick, reply } => Some(reply.term),
    }
}

/// Whether the reply of a decision, if it has one, is proper.
#[verifier::opaque]
spec fn proper_reply(decision: DecisionView, dids: bool) -> bool {
    match reply_term(decision) {
        Some(term) => proper(term, dids),
        None => true,
    }
}

proof fn lemma_answer(
    from_actor: Seq<char>,
    term: TermView,
    effect: EffectView,
    dids: bool,
)
    requires
        proper(term, dids),
    ensures
        proper_reply(
            DecisionView::Answer { effect, reply: ReplyView { from_actor, term } },
            dids,
        ),
{
    reveal(proper_reply);
}

proof fn lemma_join(
    root: RootView,
    room: Seq<char>,
    did: Seq<char>,
    nick: Seq<char>,
    reply: ReplyView,
    dids: bool,
)
    requires
        proper(reply.term, dids),
    ensures
        proper_reply(join_or_answer(root, room, did, nick, reply), dids),
{
    reveal(proper_reply);
}

proof fn lemma_dig(
    root: RootView,
    runtime: Seq<char>,
    did: Seq<char>,
    from_actor: Seq<char>,
    result: Result<DigView, Seq<char>>,
    dids: bool,
)
    requires
        dids ==> is_did(runtime),
        dids ==> match result {
            Ok(DigView::Foreign { target, label }) => is_did(target),
            _ => true,
        },
    ensures
        proper_reply(dig_answer(root, runtime, did, from_actor, result), dids),
{
    match result {
        Err(error) => {
            lemma_told(from_actor, Err(error), EffectView::Nothing, dids);
        },
        Ok(DigView::Local { fragment, name, description }) => {
            let term = enter_tree(runtime + fragment, Seq::empty(), name, description);
            if dids {
                lemma_prefix_kept("did:"@, runtime, fragment);
            }
            lemma_enter(runtime + fragment, Seq::empty(), name, description, dids);
            lemma_join(
                root,
                fragment,
                did,
                Seq::empty(),
                ReplyView { from_actor, term },
                dids,
            );
        },
        Ok(DigView::Foreign { target, label }) => {
            lemma_enter(target, Seq::empty(), label, Seq::empty(), dids);
            lemma_answer(
                from_actor,
                enter_tree(target, Seq::empty(), label, Seq::empty()),
                EffectView::Nothing,
                dids,
            );
        },
    }
}

/// The target of a `dig` that was accepted begins as a DID does.
proof fn lemma_dig_target(tokens: Seq<Seq<char>>)
    ensures
        match dig_spec(tokens) {
            Ok(spec_) => spec_.target is Some ==> is_did(spec_.target->0),
            Err(_) => true,
        },
{
    accepted_dig_is_well_formed(tokens);
}

proof fn lemma_look(
    root: RootView,
    runtime: Seq<char>,
    name: Seq<char>,
    missing: Seq<char>,
    from_actor: Seq<char>,
    presence: Seq<PresenceView>,
    dids: bool,
)
    requires
        dids ==> is_did(runtime) && all_dids(presence),
    ensures
        proper_reply(look_answer(root, runtime, name, missing, from_actor, presence), dids),
{
    match room_key(root, name) {
        Some(f) => {
            let snapshot = snapshot_of(root.entities[f], presence);
            lemma_room(root, runtime, snapshot, dids);
            lemma_answer(
                from_actor,
                room_tree(root, runtime, snapshot),
                EffectView::Nothing,
                dids,
            );
        },
        None => {
            lemma_told(from_actor, Err(missing), EffectView::Nothing, dids);
        },
    }
}

proof fn lemma_told(
    from_actor: Seq<char>,
    result: Result<Seq<char>, Seq<char>>,
    effect: EffectView,
    dids: bool,
)
    ensures
        proper_reply(
            DecisionView::Answer {
                effect,
                reply: ReplyView { from_actor, term: command_tree(result) },
            },
            dids,
        ),
{
    lemma_command(result, dids);
    lemma_answer(from_actor, command_tree(result), effect, dids);
}

proof fn lemma_concourse(
    root: RootView,
    request: RequestView,
    runtime: Seq<char>,
    verb: Seq<char>,
    args: Seq<Seq<char>>,
    c: Chance,
    dids: bool,
)
    requires
        dids ==> is_did(runtime) && all_dids(c.presence),
    ensures
        match concourse_request(root, request, runtime, verb, args, c).1 {
            Ok(decision) => proper_reply(decision, dids),
            Err(_) => true,
        },
{
    let from_actor = runtime + "#concourse"@;
    if dids {
        lemma_prefix_kept("did:"@, runtime, "#concourse"@);
    }
    if verb == ":enter"@ {
        let after = enter_step(root, request.from, concourse(), "{}"@).0;
        match room_key(after, concourse()) {
            Some(f) => {
                let room = after.entities[f];
                lemma_enter(
                    from_actor,
                    arg(args, 0),
                    room.label,
                    room_description(room),
                    dids,
                );
                lemma_answer(
                    from_actor,
                    enter_tree(from_actor, arg(args, 0), room.label, room_description(room)),
                    EffectView::Nothing,
                    dids,
                );
            },
            None => {},
        }
    } else if verb == ":dig"@ {
        lemma_dig_target(args);
        match dig_spec(args) {
            Err(error) => {
                lemma_told(from_actor, Err(error), EffectView::Nothing, dids);
            },
            Ok(spec_) => {
                let (after, result) = dig_or_enter_step(
                    root,
                    request.from,
                    spec_,
                    c.room,
                    c.exit,
                );
                lemma_dig(after, runtime, request.from, from_actor, result, dids);
            },
        }
    } else if verb == ":look"@ {
        lemma_look(
            root,
            runtime,
            concourse(),
            "concourse room missing"@,
            from_actor,
            c.presence,
            dids,
        );
    } else {
        let decision = concourse_request(root, request, runtime, verb, args, c).1->Ok_0;
        let result = concourse_command_step(
            root,
            request.from,
            command_line(verb, args),
            c.room,
            c.exit,
        ).1;
        lemma_told(from_actor, result, decision->Answer_effect, dids);
    }
}

proof fn lemma_root(
    root: RootView,
    request: RequestView,
    runtime: Seq<char>,
    verb: Seq<char>,
    args: Seq<Seq<char>>,
    dids: bool,
)
    requires
        dids ==> is_did(runtime),
    ensures
        match root_request(root, request, runtime, verb, args).1 {
            Ok(decision) => proper_reply(decision, dids),
            Err(_) => true,
        },
{
    let from_actor = runtime + "#root"@;
    if verb == ":enter"@ {
        let target = if args.len() > 0 && trim(args[0]).len() > 0 {
            args[0]
        } else {
            "#concourse"@
        };
        let after = enter_step(root, request.from, target, "{}"@).0;
        match room_key(after, target) {
            Some(f) => {
                let room = after.entities[f];
                let parent = if "did:ma:"@.is_prefix_of(target) {
                    target
                } else {
                    runtime + room.fragment
                };
                if dids {
                    lemma_prefix_kept("did:"@, runtime, room.fragment);
                    reveal_strlit("did:");
                    reveal_strlit("did:ma:");
                    assert("did:"@.len() == 4 && "did:ma:"@.len() == 7);
                    assert("did:ma:"@.subrange(0, 4) =~= "did:"@);
                    if "did:ma:"@.is_prefix_of(target) {
                        assert(target.subrange(0, 7).subrange(0, 4) =~= target.subrange(0, 4));
                    }
                }
                let term = enter_tree(parent, arg(args, 1), room.label, room_description(room));
                lemma_enter(parent, arg(args, 1), room.label, room_description(room), dids);
                lemma_join(
                    after,
                    target,
                    request.from,
                    arg(args, 1),
                    ReplyView { from_actor, term },
                    dids,
                );
            },
            None => {},
        }
    } else {
        lemma_told(
            from_actor,
            Err("unsupported #root command '"@ + verb + "' (try: :enter)"@),
            EffectView::Nothing,
            dids,
        );
    }
}

proof fn lemma_exit(
    root: RootView,
    request: RequestView,
    runtime: Seq<char>,
    verb: Seq<char>,
    holder: Seq<char>,
    dids: bool,
)
    requires
        dids ==> is_did(runtime) && is_did(request.from),
        dids && traveller(request.term) is Some ==> is_did(traveller(request.term)->0),
    ensures
        proper_reply(exit_request(root, request, runtime, verb, holder), dids),
{
    let addr = local_address(request);
    let term = exit_request(root, request, runtime, verb, holder)->Answer_reply.term;
    if verb == ":traverse"@ {
        let did = match traveller(request.term) {
            Some(did) => did,
            None => request.from,
        };
        if dids {
            traverse_answers_full_addresses(root, holder, addr, did, runtime);
        }
        lemma_traverse(traversed(root, holder, addr, did, runtime), dids);
    } else {
        lemma_command(Err("unknown exit command '"@ + verb + "' (try: :traverse)"@), dids);
    }
    lemma_answer(runtime + addr, term, EffectView::Nothing, dids);
}

proof fn lemma_room_request(
    root: RootView,
    request: RequestView,
    runtime: Seq<char>,
    verb: Seq<char>,
    args: Seq<Seq<char>>,
    bridged: bool,
    c: Chance,
    dids: bool,
)
    requires
        dids ==> is_did(runtime) && is_did(request.from) && is_did(request.to) && all_dids(
            c.presence,
        ),
    ensures
        match room_request(root, request, runtime, verb, args, bridged, c).1 {
            Ok(decision) => proper_reply(decision, dids),
            Err(_) => true,
        },
{
    let addr = local_address(request);
    if verb == ":enter"@ {
        match enter_step(root, request.from, addr, arg(args, 0)) {
            (after, Err(error)) => {
                lemma_told(request.to, Err(error), EffectView::Nothing, dids);
            },
            (after, Ok(_)) => {
                let nick = arg(args, 0);
                let term = did_enter_tree(request.from, request.to, nick);
                lemma_person(
                    request.from,
                    request.to,
                    if trim(nick).len() == 0 {
                        request.from
                    } else {
                        nick
                    },
                    "A direct DID presence."@,
                    dids,
                );
                lemma_join(
                    after,
                    addr,
                    request.from,
                    nick,
                    ReplyView { from_actor: request.to, term },
                    dids,
                );
            },
        }
    } else if verb == ":look"@ {
        lemma_look(
            root,
            runtime,
            addr,
            "entity not found"@,
            request.to,
            c.presence,
            dids,
        );
    } else if verb == ":dig"@ {
        lemma_dig_target(args);
        match dig_spec(args) {
            Err(error) => {
                lemma_told(request.to, Err(error), EffectView::Nothing, dids);
            },
            Ok(spec_) => {
                let (after, result) = dig_from_step(
                    root,
                    request.from,
                    addr,
                    spec_,
                    c.room,
                    c.exit,
                );
                lemma_dig(after, runtime, request.from, request.to, result, dids);
            },
        }
    } else {
        let (after, result) = room_command_step(
            root,
            request.from,
            addr,
            command_line(verb, args),
        );
        let (effect, told) = match result {
            Err(error) => (EffectView::Nothing, Err(error)),
            Ok(text) => command_effect(
                after,
                addr,
                request.from,
                runtime,
                verb,
                args,
                text,
                bridged,
                c.presence,
            ),
        };
        lemma_told(runtime + addr, told, effect, dids);
    }
}

proof fn lemma_dispatched(
    root: RootView,
    request: RequestView,
    runtime: Seq<char>,
    bridged: bool,
    c: Chance,
    dids: bool,
)
    requires
        dids ==> is_did(runtime) && is_did(request.from) && is_did(request.to) && all_dids(
            c.presence,
        ),
        dids && traveller(request.term) is Some ==> is_did(traveller(request.term)->0),
    ensures
        match dispatched(root, request, runtime, bridged, c).1 {
            Ok(decision) => match reply_term(decision) {
                Some(term) => proper(term, dids),
                None => true,
            },
            Err(_) => true,
        },
{
    let (verb, args) = match request_of(request.term) {
        Ok((verb, args)) => (verb, args),
        Err(_) => (Seq::empty(), Seq::empty()),
    };
    lemma_concourse(root, request, runtime, verb, args, c, dids);
    lemma_root(root, request, runtime, verb, args, dids);
    lemma_exit(root, request, runtime, verb, c.holder, dids);
    lemma_room_request(root, request, runtime, verb, args, bridged, c, dids);
    lemma_answer(
        pinged(request, runtime),
        TermView::Text(":pong"@),
        EffectView::Nothing,
        dids,
    );
    match dispatched(root, request, runtime, bridged, c).1 {
        Ok(decision) => {
            assert(decision is Ignore || proper_reply(decision, dids));
            reveal(proper_reply);
        },
        Err(_) => {},
    }
}

/// Every reply is made of values that the wire format has.
pub proof fn every_reply_can_be_sent(
    root: RootView,
    request: RequestView,
    runtime: Seq<char>,
    bridged: bool,
    c: Chance,
)
    ensures
        match dispatched(root, request, runtime, bridged, c).1 {
            Ok(decision) => match reply_term(decision) {
                Some(term) => plain(term),
                None => true,
            },
            Err(_) => true,
        },
{
    lemma_dispatched(root, request, runtime, bridged, c, false);
}

/// Every address in a reply is a full DID-URL, where the runtime, the one who
/// asks, the address that was dialed, the traveller who is named and those who
/// are in the room are DIDs.
pub proof fn every_reply_holds_full_addresses(
    root: RootView,
    request: RequestView,
    runtime: Seq<char>,
    bridged: bool,
    c: Chance,
)
    requires
        is_did(runtime),
        is_did(request.from),
        is_did(request.to),
        traveller(request.term) is Some ==> is_did(traveller(request.term)->0),
        all_dids(c.presence),
    ensures
        match dispatched(root, request, runtime, bridged, c).1 {
            Ok(decision) => match reply_term(decision) {
                Some(term) => full(term),
                None => true,
            },
            Err(_) => true,
        },
{
    lemma_dispatched(root, request, runtime, bridged, c, true);
}

// ---- events ----

proof fn lemma_event(verb: Seq<char>, ctx: TermView, text: Option<Seq<char>>, dids: bool)
    requires
        proper(ctx, dids),
    ensures
        proper(event_tree(verb, ctx, text), dids),
{
    let items = event_tree(verb, ctx, text)->Array_0;
    assert forall|i: int| 0 <= i < items.len() implies proper(#[trigger] items[i], dids) by {
        assert(items[i] is Text || items[i] == ctx);
    }
    assert(forall|i: int| 0 <= i < items.len() ==> plain(#[trigger] items[i]));
    assert(dids ==> forall|i: int| 0 <= i < items.len() ==> full(#[trigger] items[i]));
}

proof fn lemma_fake_event(
    verb: Seq<char>,
    runtime: Seq<char>,
    fragment: Seq<char>,
    nick: Seq<char>,
    text: Option<Seq<char>>,
    dids: bool,
)
    requires
        dids ==> is_did(runtime),
    ensures
        proper(event_tree(verb, fake_tree(runtime, fragment, nick), text), dids),
{
    if dids {
        lemma_prefix_kept("did:"@, runtime, fragment);
        lemma_fake_url(runtime, nick);
    }
    lemma_person(
        fake_url(runtime, nick),
        room_url(runtime, fragment),
        nick,
        "An IRC user in the channel."@,
        dids,
    );
    lemma_event(verb, fake_tree(runtime, fragment, nick), text, dids);
}

proof fn lemma_presence_event(
    verb: Seq<char>,
    runtime: Seq<char>,
    fragment: Seq<char>,
    presence: PresenceView,
    nick: Option<Seq<char>>,
    text: Option<Seq<char>>,
    dids: bool,
)
    requires
        dids ==> is_did(runtime) && is_did(presence.did),
    ensures
        proper(
            event_tree(verb, presence_tree(room_url(runtime, fragment), presence, nick), text),
            dids,
        ),
{
    if dids {
        lemma_prefix_kept("did:"@, runtime, fragment);
    }
    let room_actor = room_url(runtime, fragment);
    lemma_person(
        presence.did,
        room_actor,
        match nick {
            Some(nick) => nick,
            None => shown_nick(presence),
        },
        "A direct DID presence."@,
        dids,
    );
    lemma_event(verb, presence_tree(room_actor, presence, nick), text, dids);
}

proof fn lemma_room_speaks(
    runtime: Seq<char>,
    fragment: Seq<char>,
    label: Seq<char>,
    text: Seq<char>,
    dids: bool,
)
    requires
        dids ==> is_did(runtime),
    ensures
        proper(
            event_tree(
                ":say"@,
                speaking_room_tree(runtime, room_url(runtime, fragment), label),
                Some(text),
            ),
            dids,
        ),
{
    if dids {
        lemma_prefix_kept("did:"@, runtime, fragment);
        lemma_prefix_kept("did:"@, runtime, "#root"@);
    }
    lemma_address_keys();
    let ctx = speaking_room_tree(runtime, room_url(runtime, fragment), label);
    lemma_record(ctx->Record_0, dids);
    lemma_event(":say"@, ctx, Some(text), dids);
}

/// Whatever happens on the channel, what the occupants are told of it is made of
/// values that the wire format has, and holds full addresses alone where the
/// runtime is a DID.
pub proof fn every_event_can_be_sent(
    room: RoomView,
    runtime: Seq<char>,
    fragment: Seq<char>,
    did: Seq<char>,
    event: EventView,
    mirror: Seq<char>,
    i: int,
)
    requires
        0 <= i < room_event(room, runtime, fragment, did, event, mirror).1.len(),
    ensures
        plain(room_event(room, runtime, fragment, did, event, mirror).1[i]),
        is_did(runtime) ==> full(room_event(room, runtime, fragment, did, event, mirror).1[i]),
{
    let dids = is_did(runtime);
    match event {
        EventView::Message { nick, text } => {
            lemma_fake_event(":say"@, runtime, fragment, nick, Some(text), dids);
        },
        EventView::Action { nick, text } => {
            lemma_fake_event(":emote"@, runtime, fragment, nick, Some(text), dids);
        },
        EventView::Joined { nick } => {
            lemma_fake_event(":arrive"@, runtime, fragment, nick, None, dids);
        },
        EventView::Parted { nick } => {
            lemma_fake_event(":leave"@, runtime, fragment, nick, None, dids);
        },
        EventView::Quit { nick } => {
            lemma_fake_event(":leave"@, runtime, fragment, nick, None, dids);
        },
        EventView::Renamed { old_nick, new_nick } => {
            lemma_fake_event(":leave"@, runtime, fragment, old_nick, None, dids);
            lemma_fake_event(":arrive"@, runtime, fragment, new_nick, None, dids);
        },
        _ => {},
    }
}

/// What is said in a room, on its channel or not, is told in values that the
/// wire format has, and holds full addresses alone where the runtime and the
/// speaker are DIDs.
pub proof fn speech_can_be_sent(
    room: RoomView,
    addr: Seq<char>,
    from: Seq<char>,
    runtime: Seq<char>,
    text: Seq<char>,
    emote: bool,
    bridged: bool,
    presence: Seq<PresenceView>,
)
    ensures
        ({
            let dids = is_did(runtime) && is_did(room.presence[from].did);
            let told = echo(room, runtime, addr, from, text, emote);
            &&& match speech_effect(
                room,
                addr,
                from,
                runtime,
                text,
                emote,
                bridged,
                presence,
            ).0 {
                EffectView::Broadcast { from_actor, term, presence } => plain(term) && (dids
                    ==> full(term)),
                _ => true,
            }
            &&& forall|i: int|
                0 <= i < told.len() ==> plain(#[trigger] told[i]) && (dids ==> full(told[i]))
        }),
{
    let dids = is_did(runtime) && is_did(room.presence[from].did);
    let verb = speech_verb(emote);
    lemma_presence_event(verb, runtime, addr, room.presence[from], None, Some(text), dids);
    lemma_presence_event(
        verb,
        runtime,
        addr,
        room.presence[from],
        Some(room.irc_mirrors[from]),
        Some(text),
        dids,
    );
}

/// What is told to an occupant that the channel refused is made of values that
/// the wire format has, and holds full addresses alone where the runtime is a
/// DID.
pub proof fn every_notice_can_be_sent(
    root: RootView,
    runtime: Seq<char>,
    name: Seq<char>,
    did: Seq<char>,
    label: Seq<char>,
    error: Seq<char>,
)
    ensures
        plain(join_failure(root, runtime, name, did).1.term),
        plain(kick_notice(runtime, name, label, did, error).term),
        is_did(runtime) ==> full(join_failure(root, runtime, name, did).1.term),
        is_did(runtime) ==> full(kick_notice(runtime, name, label, did, error).term),
{
    let fragment = fragment_or_name(root, name);
    let known = match room_key(root, fragment) {
        Some(f) => root.entities[f].label,
        None => fragment,
    };
    lemma_room_speaks(
        runtime,
        fragment,
        known,
        "your nick cannot be accepted"@,
        is_did(runtime),
    );
    lemma_room_speaks(
        runtime,
        name,
        label,
        "your IRC nick could not be registered on the channel ("@ + error
            + "); re-enter with a different nick"@,
        is_did(runtime),
    );
}

} // verus!
