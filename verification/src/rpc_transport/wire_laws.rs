//! What the terms of requests, replies and events hold, value by value.

use vstd::prelude::*;

use crate::bridge::laws::{field, person};
use crate::channel::room::ExitView;
use crate::root::model::{url_of, RootView, TraverseView};
use crate::root::report::SnapshotView;
use crate::rpc_transport::wire::{
    children_of, command_line, command_tree, did_enter_tree, did_entry, enter_tree, event_tree,
    exit_child, fake_name, fake_tree, is_fake_char, ok_tree, presence_tree, request_of, room_tree,
    service, text_items, traveller, traverse_tree,
};
use crate::term::TermView;
use crate::text::{is_ascii_text, lower, trim};

verus! {

// ---- requests ----

/// A request is a verb alone, or a verb and the texts that follow it, in their
/// order and without what is no text; anything else is no request.
pub proof fn request_is_a_verb_and_texts(
    verb: Seq<char>,
    items: Seq<TermView>,
    text: Seq<char>,
    other: TermView,
    n: int,
)
    requires
        !(other is Text),
    ensures
        request_of(TermView::Text(verb)) == Ok::<(Seq<char>, Seq<Seq<char>>), Seq<char>>(
            (verb, Seq::empty()),
        ),
        request_of(TermView::Array(seq![TermView::Text(verb)] + items)) == Ok::<
            (Seq<char>, Seq<Seq<char>>),
            Seq<char>,
        >((verb, text_items(items))),
        text_items(Seq::<TermView>::empty()).len() == 0,
        text_items(items.push(TermView::Text(text))) == text_items(items).push(text),
        text_items(items.push(other)) == text_items(items),
        request_of(TermView::Array(seq![other] + items)) == Err::<
            (Seq<char>, Seq<Seq<char>>),
            Seq<char>,
        >("invalid RPC tuple head"@),
        request_of(TermView::Array(Seq::empty())) == Err::<
            (Seq<char>, Seq<Seq<char>>),
            Seq<char>,
        >("invalid RPC tuple head"@),
        request_of(TermView::Int(n)) == Err::<(Seq<char>, Seq<Seq<char>>), Seq<char>>(
            "invalid RPC term"@,
        ),
        request_of(TermView::Other) == Err::<(Seq<char>, Seq<Seq<char>>), Seq<char>>(
            "invalid RPC term"@,
        ),
{
    assert((seq![TermView::Text(verb)] + items).skip(1) =~= items);
    assert(items.push(TermView::Text(text)).drop_last() =~= items);
    assert(items.push(other).drop_last() =~= items);
}

/// A verb and its arguments make one line, with a blank between two of them.
pub proof fn command_line_joins_verb_and_arguments(
    verb: Seq<char>,
    args: Seq<Seq<char>>,
    last: Seq<char>,
)
    ensures
        command_line(verb, Seq::empty()) == verb,
        command_line(verb, args.push(last)) == command_line(verb, args) + " "@ + last,
{
    assert(seq![verb] + Seq::<Seq<char>>::empty() =~= seq![verb]);
    let parts = seq![verb] + args.push(last);
    assert(parts.drop_last() =~= seq![verb] + args);
    assert(parts.last() == last);
}

proof fn lemma_did_entry(entries: Seq<(TermView, TermView)>, i: int)
    requires
        0 <= i <= entries.len(),
        forall|j: int|
            0 <= j < i ==> !((#[trigger] entries[j]).0 == TermView::Text("did"@) && entries[j].1
                is Text),
        i < entries.len() ==> entries[i].0 == TermView::Text("did"@) && entries[i].1 is Text,
    ensures
        i < entries.len() ==> did_entry(entries) == Some(entries[i].1->Text_0),
        i == entries.len() ==> did_entry(entries) is None,
    decreases i,
{
    if i > 0 {
        let rest = entries.drop_first();
        assert(!(entries[0].0 == TermView::Text("did"@) && entries[0].1 is Text));
        assert forall|j: int| 0 <= j < i - 1 implies !((#[trigger] rest[j]).0 == TermView::Text(
            "did"@,
        ) && rest[j].1 is Text) by {
            assert(rest[j] == entries[j + 1]);
        }
        lemma_did_entry(rest, i - 1);
    }
}

/// The traveller is the first text under `did` in the record behind the verb; no
/// such record or text names none.
pub proof fn traveller_is_named_in_the_record(
    verb: TermView,
    entries: Seq<(TermView, TermView)>,
    more: Seq<TermView>,
    i: int,
)
    requires
        0 <= i <= entries.len(),
        forall|j: int|
            0 <= j < i ==> !((#[trigger] entries[j]).0 == TermView::Text("did"@) && entries[j].1
                is Text),
        i < entries.len() ==> entries[i].0 == TermView::Text("did"@) && entries[i].1 is Text,
    ensures
        i < entries.len() ==> traveller(
            TermView::Array(seq![verb, TermView::Record(entries)] + more),
        ) == Some(entries[i].1->Text_0),
        i == entries.len() ==> traveller(
            TermView::Array(seq![verb, TermView::Record(entries)] + more),
        ) is None,
        traveller(TermView::Array(seq![verb])) is None,
        !(verb is Array) ==> traveller(verb) is None,
{
    lemma_did_entry(entries, i);
    let items = seq![verb, TermView::Record(entries)] + more;
    assert(items[1] == TermView::Record(entries));
}

// ---- replies ----

/// A command that was obeyed is answered by `:ok` and what is told, one that was
/// refused by `:error` and the reason.
pub proof fn outcome_is_told(text: Seq<char>, payload: TermView)
    ensures
        command_tree(Ok(text)) == TermView::Array(
            seq![TermView::Text(":ok"@), TermView::Text(text)],
        ),
        command_tree(Err(text)) == TermView::Array(
            seq![TermView::Text(":error"@), TermView::Text(text)],
        ),
        ok_tree(payload) == TermView::Array(seq![TermView::Text(":ok"@), payload]),
{
}

/// What a walk through an exit is answered with.
pub proof fn walk_is_told(reply: TraverseView)
    ensures
        traverse_tree(reply) == TermView::Array(
            seq![
                TermView::Text(":ok"@),
                TermView::Record(
                    seq![
                        field("did"@, reply.did),
                        field("parent"@, reply.parent),
                        field("text"@, reply.text),
                        field("exit"@, reply.exit),
                        field("direction"@, reply.direction),
                    ],
                ),
            ],
        ),
{
    let entries = seq![
        field("did"@, reply.did),
        field("parent"@, reply.parent),
        field("text"@, reply.text),
        field("exit"@, reply.exit),
        field("direction"@, reply.direction),
    ];
    assert(traverse_tree(reply)->Array_0[1]->Record_0 =~= entries);
}

/// What an entry is answered with: the room to be in, the nick, and what the room
/// is called.
pub proof fn entry_is_told(
    parent: Seq<char>,
    nick: Seq<char>,
    name: Seq<char>,
    description: Seq<char>,
    did: Seq<char>,
)
    ensures
        enter_tree(parent, nick, name, description) == TermView::Array(
            seq![
                TermView::Text(":ok"@),
                TermView::Record(
                    seq![
                        field("parent"@, parent),
                        field("nick"@, nick),
                        field("name"@, name),
                        field("description"@, description),
                        (TermView::Text("rev"@), TermView::Int(1)),
                    ],
                ),
            ],
        ),
        trim(nick).len() > 0 ==> did_enter_tree(did, parent, nick) == TermView::Array(
            seq![
                TermView::Text(":ok"@),
                person(did, parent, nick, "A direct DID presence."@),
            ],
        ),
        trim(nick).len() == 0 ==> did_enter_tree(did, parent, nick) == TermView::Array(
            seq![
                TermView::Text(":ok"@),
                person(did, parent, did, "A direct DID presence."@),
            ],
        ),
{
    let entries = seq![
        field("parent"@, parent),
        field("nick"@, nick),
        field("name"@, name),
        field("description"@, description),
        (TermView::Text("rev"@), TermView::Int(1)),
    ];
    assert(enter_tree(parent, nick, name, description)->Array_0[1]->Record_0 =~= entries);
    let shown = if trim(nick).len() == 0 {
        did
    } else {
        nick
    };
    assert(did_enter_tree(did, parent, nick)->Array_0[1]->Record_0 =~= person(
        did,
        parent,
        shown,
        "A direct DID presence."@,
    )->Record_0);
}

/// An event is its verb, who it is about, and what was said, if anything was.
pub proof fn event_is_verb_speaker_and_text(verb: Seq<char>, ctx: TermView, text: Seq<char>)
    ensures
        event_tree(verb, ctx, Some(text)) == TermView::Array(
            seq![TermView::Text(verb), ctx, TermView::Text(text)],
        ),
        event_tree(verb, ctx, None) == TermView::Array(seq![TermView::Text(verb), ctx]),
{
}

/// The address of an IRC-only user holds the first forty-eight characters of its
/// nick in small letters, with a dash for every character that no address holds.
pub proof fn irc_user_address_is_made_of_the_nick(nick: Seq<char>, i: int)
    requires
        is_ascii_text(nick),
        0 <= i < nick.len(),
    ensures
        nick.len() <= 48 ==> fake_name(nick).len() == nick.len(),
        nick.len() > 48 ==> fake_name(nick).len() == 48,
        i < fake_name(nick).len() ==> {
            let c = nick[i];
            let made = fake_name(nick)[i];
            &&& ('a' <= c && c <= 'z') || ('0' <= c && c <= '9') || c == '-' || c == '_' ==> made
                == c
            &&& 'A' <= c && c <= 'Z' ==> made as u32 == c as u32 + 32
            &&& !(('a' <= c && c <= 'z') || ('0' <= c && c <= '9') || c == '-' || c == '_' || ('A'
                <= c && c <= 'Z')) ==> made == '-'
        },
{
    assert(lower(nick).len() == nick.len());
}

// ---- a room and its children ----

/// An exit is a child of its room: under its own address, named after its
/// direction, and leading to its target where that is known.
pub proof fn exit_is_a_child_of_its_room(
    root: RootView,
    runtime: Seq<char>,
    room: Seq<char>,
    exit: ExitView,
)
    ensures
        ({
            let (key, child) = exit_child(root, runtime, room, exit);
            let common = seq![
                field("actor"@, runtime + exit.fragment),
                field("kind"@, "exit"@),
                field("protocol"@, "/ma/exit/0.0.1"@),
                field("parent"@, room),
                field("name"@, exit.name),
                field("nick"@, exit.name),
                field("description"@, "An exit leading "@ + exit.name + "."@),
                field("direction"@, exit.name),
            ];
            &&& key == TermView::Text(runtime + exit.fragment)
            &&& url_of(root, runtime, exit.target) is None ==> child == TermView::Record(common)
            &&& url_of(root, runtime, exit.target) is Some ==> child == TermView::Record(
                common.push(field("target-room"@, url_of(root, runtime, exit.target)->0)),
            )
        }),
{
    let common = seq![
        field("actor"@, runtime + exit.fragment),
        field("kind"@, "exit"@),
        field("protocol"@, "/ma/exit/0.0.1"@),
        field("parent"@, room),
        field("name"@, exit.name),
        field("nick"@, exit.name),
        field("description"@, "An exit leading "@ + exit.name + "."@),
        field("direction"@, exit.name),
    ];
    let child = exit_child(root, runtime, room, exit).1;
    match url_of(root, runtime, exit.target) {
        Some(url) => {
            assert(child->Record_0 =~= common.push(field("target-room"@, url)));
        },
        None => {
            assert(child->Record_0 =~= common);
        },
    }
}

/// The children of a room are its occupants, then its exits, then the IRC-only
/// users on its channel, each under its own address.
pub proof fn children_are_occupants_exits_and_users(
    root: RootView,
    runtime: Seq<char>,
    snapshot: SnapshotView,
    i: int,
)
    ensures
        ({
            let room = runtime + snapshot.fragment;
            let children = children_of(root, runtime, snapshot);
            let n = snapshot.presence.len();
            let m = snapshot.exits.len();
            &&& children.len() == n + m + snapshot.irc_occupants.len()
            &&& 0 <= i < n ==> children[i] == (
                TermView::Text(snapshot.presence[i].did),
                presence_tree(room, snapshot.presence[i], None),
            )
            &&& n <= i < n + m ==> children[i] == exit_child(
                root,
                runtime,
                room,
                snapshot.exits[i - n],
            )
            &&& n + m <= i < children.len() ==> children[i] == (
                TermView::Text(
                    runtime + "#irc-"@ + fake_name(snapshot.irc_occupants[i - n - m]),
                ),
                fake_tree(runtime, snapshot.fragment, snapshot.irc_occupants[i - n - m]),
            )
        }),
{
}

/// A room is told with its address, its name, its description, its owner where it
/// has one, and its children.
pub proof fn room_is_told_with_its_children(
    root: RootView,
    runtime: Seq<char>,
    snapshot: SnapshotView,
)
    ensures
        ({
            let told = room_tree(root, runtime, snapshot);
            let common = seq![
                field("protocol"@, "/ma/room/0.0.1"@),
                field("kind"@, "room"@),
                field("actor"@, runtime + snapshot.fragment),
                field("parent"@, runtime + "#root"@),
                (TermView::Text("rev"@), TermView::Int(0)),
                field("name"@, snapshot.name),
                field("nick"@, snapshot.name),
                field("description"@, snapshot.description),
            ];
            let children = (
                TermView::Text("children"@),
                TermView::Record(children_of(root, runtime, snapshot)),
            );
            &&& snapshot.owner is None ==> told == TermView::Array(
                seq![TermView::Text(":ok"@), TermView::Record(common.push(children))],
            )
            &&& snapshot.owner is Some ==> told == TermView::Array(
                seq![
                    TermView::Text(":ok"@),
                    TermView::Record(
                        common.push(field("owner"@, snapshot.owner->0)).push(children),
                    ),
                ],
            )
        }),
{
    let common = seq![
        field("protocol"@, "/ma/room/0.0.1"@),
        field("kind"@, "room"@),
        field("actor"@, runtime + snapshot.fragment),
        field("parent"@, runtime + "#root"@),
        (TermView::Text("rev"@), TermView::Int(0)),
        field("name"@, snapshot.name),
        field("nick"@, snapshot.name),
        field("description"@, snapshot.description),
    ];
    let children = (
        TermView::Text("children"@),
        TermView::Record(children_of(root, runtime, snapshot)),
    );
    let entries = room_tree(root, runtime, snapshot)->Array_0[1]->Record_0;
    match snapshot.owner {
        Some(owner) => {
            assert(entries =~= common.push(field("owner"@, owner)).push(children));
        },
        None => {
            assert(entries =~= common.push(children));
        },
    }
}

/// A service is the endpoint's address followed by the protocol.
pub proof fn service_names_endpoint_and_protocol(endpoint_id: Seq<char>, protocol: Seq<char>)
    ensures
        service(endpoint_id, protocol) == "/iroh/"@ + endpoint_id + protocol,
{
}

/// The characters that the nick of an IRC-only user brings into its address are
/// small letters, digits, dashes and underscores.
pub proof fn irc_user_address_is_plain(c: char)
    ensures
        is_fake_char(c) <==> ('a' <= c && c <= 'z') || ('0' <= c && c <= '9') || c == '-' || c
            == '_',
{
}

} // verus!
