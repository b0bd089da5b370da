//! The terms of requests, replies and events.

use vstd::prelude::*;
use vstd::string::*;

use crate::channel::nick::at_most;
use crate::channel::room::{shown_nick, ExitView, PresenceRecord, PresenceView, RoomExit};
use crate::collections::{held, str_texts, texts};
use crate::error::{outcome, Error};
use crate::root::model::{url_of, RootView, TraverseView};
use crate::root::report::{RoomSnapshot, SnapshotView};
use crate::root::{RootActor, TraverseReply};
use crate::term::{
    array, entry, no_fields, text_entry, text_term, trees, Fields, Term, TermView,
};
use crate::text::{
    chars_of, join, join_all, lower, lowered, no_capitals, same_text, text_of, trim, trimmed,
};

verus! {

// ---- requests ----

/// The texts among the items of an array.
pub open spec fn text_items(items: Seq<TermView>) -> Seq<Seq<char>>
    decreases items.len(),
{
    if items.len() == 0 {
        Seq::empty()
    } else {
        match items.last() {
            TermView::Text(text) => text_items(items.drop_last()).push(text),
            _ => text_items(items.drop_last()),
        }
    }
}

/// The verb of a request and its textual arguments: an atom alone, or an array
/// led by an atom.
pub open spec fn request_of(term: TermView) -> Result<(Seq<char>, Seq<Seq<char>>), Seq<char>> {
    match term {
        TermView::Text(verb) => Ok((verb, Seq::empty())),
        TermView::Array(items) => if items.len() > 0 && items[0] is Text {
            Ok((items[0]->Text_0, text_items(items.skip(1))))
        } else {
            Err("invalid RPC tuple head"@)
        },
        _ => Err("invalid RPC term"@),
    }
}

pub fn parse_term(term: &Term) -> (r: Result<(String, Vec<String>), Error>)
    ensures
        match r {
            Ok((verb, args)) => request_of(term@) == Ok::<(Seq<char>, Seq<Seq<char>>), Seq<char>>(
                (verb@, texts(args@)),
            ),
            Err(error) => request_of(term@) == Err::<(Seq<char>, Seq<Seq<char>>), Seq<char>>(
                error@,
            ),
        },
{
    match term {
        Term::Text(verb) => {
            let args: Vec<String> = Vec::new();
            assert(texts(args@) =~= Seq::<Seq<char>>::empty());
            Ok((verb.clone(), args))
        },
        Term::Array(items) => {
            let ghost all = term@->Array_0;
            assert(all =~= trees(items@));
            if items.len() == 0 {
                return Err(Error::of("invalid RPC tuple head"));
            }
            let verb = match &items[0] {
                Term::Text(verb) => verb.clone(),
                _ => {
                    assert(all[0] == items@[0]@);
                    return Err(Error::of("invalid RPC tuple head"));
                },
            };
            assert(all[0] == items@[0]@);
            let ghost rest = all.skip(1);
            let mut args: Vec<String> = Vec::new();
            let mut i: usize = 1;
            assert(rest.take(0) =~= Seq::<TermView>::empty());
            while i < items.len()
                invariant
                    1 <= i <= items@.len(),
                    all == trees(items@),
                    rest == all.skip(1),
                    texts(args@) =~= text_items(rest.take(i - 1)),
                decreases items@.len() - i,
            {
                proof {
                    assert(rest.take(i + 1 - 1).drop_last() =~= rest.take(i - 1));
                    assert(rest.take(i + 1 - 1).last() == items@[i as int]@);
                }
                if let Term::Text(text) = &items[i] {
                    let ghost before = texts(args@);
                    args.push(text.clone());
                    assert(texts(args@) =~= before.push(text@));
                }
                i += 1;
            }
            assert(rest.take(i - 1) =~= rest);
            Ok((verb, args))
        },
        _ => Err(Error::of("invalid RPC term")),
    }
}

/// The first text that stands under the text `did` in a record.
pub open spec fn did_entry(entries: Seq<(TermView, TermView)>) -> Option<Seq<char>>
    decreases entries.len(),
{
    if entries.len() == 0 {
        None
    } else if entries[0].0 == TermView::Text("did"@) && entries[0].1 is Text {
        Some(entries[0].1->Text_0)
    } else {
        did_entry(entries.drop_first())
    }
}

/// The traveller that a `:traverse` request names, whose first argument is a
/// record `{did, parent}`.
pub open spec fn traveller(term: TermView) -> Option<Seq<char>> {
    match term {
        TermView::Array(items) => if items.len() > 1 && items[1] is Record {
            did_entry(items[1]->Record_0)
        } else {
            None
        },
        _ => None,
    }
}

/// The `:traverse` payload is `[{did, parent}, …]`; `parse_term` drops
/// records, so the traveller DID is read from the raw term.
pub fn traversal_did(term: &Term) -> (r: Option<String>)
    ensures
        held(r) == traveller(term@),
{
    match term {
        Term::Array(items) => {
            assert(term@->Array_0 =~= trees(items@));
            if items.len() < 2 {
                return None;
            }
            assert(term@->Array_0[1] == items@[1]@);
            match &items[1] {
                Term::Record(entries) => {
                    let ghost all = items@[1]@->Record_0;
                    let mut i: usize = 0;
                    assert(all.skip(0) =~= all);
                    while i < entries.len()
                        invariant
                            i <= entries@.len(),
                            all.len() == entries@.len(),
                            forall|j: int|
                                0 <= j < entries@.len() ==> (#[trigger] all[j]) == (
                                    entries@[j].0@,
                                    entries@[j].1@,
                                ),
                            traveller(term@) == did_entry(all),
                            did_entry(all) == did_entry(all.skip(i as int)),
                        decreases entries@.len() - i,
                    {
                        proof {
                            assert(all.skip(i as int)[0] == all[i as int]);
                            assert(all.skip(i as int).drop_first() =~= all.skip(i + 1));
                        }
                        if let (Term::Text(key), Term::Text(did)) = (&entries[i].0, &entries[i].1) {
                            if same_text(key.as_str(), "did") {
                                return Some(did.clone());
                            }
                        }
                        i += 1;
                    }
                    None
                },
                _ => None,
            }
        },
        _ => None,
    }
}

/// A verb and its arguments as one line.
pub open spec fn command_line(verb: Seq<char>, args: Seq<Seq<char>>) -> Seq<char> {
    join(seq![verb] + args, " "@)
}

pub fn command_input(verb: &str, args: &Vec<String>) -> (r: String)
    ensures
        r@ == command_line(verb@, texts(args@)),
{
    let mut parts: Vec<String> = Vec::new();
    parts.push(verb.to_owned());
    let mut i: usize = 0;
    assert(texts(parts@) =~= seq![verb@]);
    while i < args.len()
        invariant
            i <= args@.len(),
            texts(parts@) =~= seq![verb@] + texts(args@).take(i as int),
        decreases args@.len() - i,
    {
        let ghost before = texts(parts@);
        parts.push(args[i].clone());
        assert(texts(parts@) =~= before.push(args@[i as int]@));
        i += 1;
    }
    assert(texts(parts@) =~= seq![verb@] + texts(args@));
    join_all(&parts, " ")
}

// ---- replies ----

/// `[:ok, payload]`.
pub open spec fn ok_tree(payload: TermView) -> TermView {
    TermView::Array(seq![TermView::Text(":ok"@), payload])
}

/// `[:ok, text]` or `[:error, message]`.
pub open spec fn command_tree(result: Result<Seq<char>, Seq<char>>) -> TermView {
    match result {
        Ok(text) => TermView::Array(seq![TermView::Text(":ok"@), TermView::Text(text)]),
        Err(error) => TermView::Array(seq![TermView::Text(":error"@), TermView::Text(error)]),
    }
}

pub fn ok_term(payload: Term) -> (r: Term)
    ensures
        r@ == ok_tree(payload@),
{
    let mut items: Vec<Term> = Vec::new();
    items.push(text_term(":ok"));
    items.push(payload);
    assert(trees(items@) =~= seq![TermView::Text(":ok"@), payload@]);
    array(items)
}

pub fn command_term(result: Result<String, Error>) -> (r: Term)
    ensures
        r@ == command_tree(outcome(result)),
{
    let mut items: Vec<Term> = Vec::new();
    match result {
        Ok(text) => {
            items.push(text_term(":ok"));
            items.push(Term::Text(text));
            assert(trees(items@) =~= seq![TermView::Text(":ok"@), TermView::Text(text@)]);
        },
        Err(error) => {
            items.push(text_term(":error"));
            items.push(text_term(error.message()));
            assert(trees(items@) =~= seq![TermView::Text(":error"@), TermView::Text(error@)]);
        },
    }
    array(items)
}

pub open spec fn traverse_tree(reply: TraverseView) -> TermView {
    ok_tree(
        TermView::Record(
            no_fields()
                .push(text_entry("did"@, reply.did))
                .push(text_entry("parent"@, reply.parent))
                .push(text_entry("text"@, reply.text))
                .push(text_entry("exit"@, reply.exit))
                .push(text_entry("direction"@, reply.direction)),
        ),
    )
}

pub fn traverse_term(reply: &TraverseReply) -> (r: Term)
    ensures
        r@ == traverse_tree(reply@),
{
    let mut fields = Fields::new();
    fields.put_text("did", reply.did.as_str());
    fields.put_text("parent", reply.parent.as_str());
    fields.put_text("text", reply.text.as_str());
    fields.put_text("exit", reply.exit.as_str());
    fields.put_text("direction", reply.direction.as_str());
    ok_term(fields.into_record())
}

/// What a client gets after entering: the room to be in, the nick, and what the
/// room is called.
pub open spec fn enter_tree(
    parent: Seq<char>,
    nick: Seq<char>,
    name: Seq<char>,
    description: Seq<char>,
) -> TermView {
    ok_tree(
        TermView::Record(
            no_fields()
                .push(text_entry("parent"@, parent))
                .push(text_entry("nick"@, nick))
                .push(text_entry("name"@, name))
                .push(text_entry("description"@, description))
                .push(entry("rev"@, TermView::Int(1))),
        ),
    )
}

pub fn enter_term(parent: &str, nick: &str, name: &str, description: &str) -> (r: Term)
    ensures
        r@ == enter_tree(parent@, nick@, name@, description@),
{
    let mut fields = Fields::new();
    fields.put_text("parent", parent);
    fields.put_text("nick", nick);
    fields.put_text("name", name);
    fields.put_text("description", description);
    fields.put_int("rev", 1);
    ok_term(fields.into_record())
}

// ---- actors ----

/// A person in a room.
pub open spec fn person_tree(
    actor: Seq<char>,
    parent: Seq<char>,
    name: Seq<char>,
    description: Seq<char>,
) -> TermView {
    TermView::Record(
        no_fields()
            .push(text_entry("actor"@, actor))
            .push(text_entry("did"@, actor))
            .push(text_entry("parent"@, parent))
            .push(text_entry("kind"@, "h00man"@))
            .push(text_entry("protocol"@, "/ma/agent/0.0.1"@))
            .push(text_entry("name"@, name))
            .push(text_entry("nick"@, name))
            .push(text_entry("description"@, description))
            .push(entry("rev"@, TermView::Int(1))),
    )
}

fn person_term(actor: &str, parent: &str, name: &str, description: &str) -> (r: Term)
    ensures
        r@ == person_tree(actor@, parent@, name@, description@),
{
    let mut fields = Fields::new();
    fields.put_text("actor", actor);
    fields.put_text("did", actor);
    fields.put_text("parent", parent);
    fields.put_text("kind", "h00man");
    fields.put_text("protocol", "/ma/agent/0.0.1");
    fields.put_text("name", name);
    fields.put_text("nick", name);
    fields.put_text("description", description);
    fields.put_int("rev", 1);
    fields.into_record()
}

/// The standard answer to a room entry: the one who entered, in the room that
/// was dialed, under its nick or else its DID.
pub open spec fn did_enter_tree(did: Seq<char>, parent: Seq<char>, nick: Seq<char>) -> TermView {
    let name = if trim(nick).len() == 0 {
        did
    } else {
        nick
    };
    ok_tree(person_tree(did, parent, name, "A direct DID presence."@))
}

pub fn did_enter_term(did: &str, parent: &str, nick: &str) -> (r: Term)
    ensures
        r@ == did_enter_tree(did@, parent@, nick@),
{
    let name = if trimmed(nick).is_empty() {
        did
    } else {
        nick
    };
    ok_term(person_term(did, parent, name, "A direct DID presence."))
}

/// The full address of a room.
pub open spec fn room_url(runtime: Seq<char>, fragment: Seq<char>) -> Seq<char> {
    runtime + fragment
}

pub fn room_actor_url(runtime_did: &str, fragment: &str) -> (r: String)
    ensures
        r@ == room_url(runtime_did@, fragment@),
{
    runtime_did.to_owned().concat(fragment)
}

/// A character that can stand in an address.
pub open spec fn address_char(c: char) -> char {
    if ('a' <= c && c <= 'z') || ('A' <= c && c <= 'Z') || ('0' <= c && c <= '9') || c == '-' || c
        == '_' {
        c
    } else {
        '-'
    }
}

/// The longest part of a nick that goes into an address.
pub const MAX_FAKE_LEN: usize = 48;

/// Whether a character can come from a nick into an address.
pub open spec fn is_fake_char(c: char) -> bool {
    ('a' <= c && c <= 'z') || ('0' <= c && c <= '9') || c == '-' || c == '_'
}

/// The part of a nick that goes into an address.
pub open spec fn fake_name(nick: Seq<char>) -> Seq<char> {
    at_most(lower(nick).map_values(|c: char| address_char(c)), MAX_FAKE_LEN as int)
}

/// The address of an IRC-only user.
pub open spec fn fake_url(runtime: Seq<char>, nick: Seq<char>) -> Seq<char> {
    runtime + "#irc-"@ + fake_name(nick)
}

pub fn irc_fake_actor(runtime_did: &str, nick: &str) -> (r: String)
    ensures
        r@ == fake_url(runtime_did@, nick@),
        r@ == runtime_did@ + "#irc-"@ + fake_name(nick@),
        fake_name(nick@).len() <= MAX_FAKE_LEN,
        forall|i: int|
            0 <= i < fake_name(nick@).len() ==> is_fake_char(#[trigger] fake_name(nick@)[i]),
{
    let small = lowered(nick);
    let chars = chars_of(small.as_str());
    let ghost safe_chars = small@.map_values(|c: char| address_char(c));
    let mut safe: Vec<char> = Vec::new();
    let mut i: usize = 0;
    while i < chars.len()
        invariant
            i <= chars@.len(),
            chars@ == small@,
            no_capitals(small@),
            safe_chars == small@.map_values(|c: char| address_char(c)),
            safe@ =~= safe_chars.take(i as int),
            forall|j: int| 0 <= j < i ==> is_fake_char(#[trigger] safe@[j]),
        decreases chars@.len() - i,
    {
        let c = chars[i];
        assert(!('A' <= small@[i as int] && small@[i as int] <= 'Z'));
        if ('a' <= c && c <= 'z') || ('A' <= c && c <= 'Z') || ('0' <= c && c <= '9') || c == '-'
            || c == '_' {
            safe.push(c);
        } else {
            safe.push('-');
        }
        i += 1;
    }
    assert(safe@ =~= safe_chars);
    if safe.len() > MAX_FAKE_LEN {
        safe.truncate(MAX_FAKE_LEN);
    }
    assert(safe@ =~= fake_name(nick@));
    runtime_did.to_owned().concat("#irc-").concat(text_of(&safe).as_str())
}

/// An occupant as a child of its room.
pub open spec fn presence_tree(
    room_actor: Seq<char>,
    presence: PresenceView,
    nick: Option<Seq<char>>,
) -> TermView {
    person_tree(
        presence.did,
        room_actor,
        match nick {
            Some(nick) => nick,
            None => shown_nick(presence),
        },
        "A direct DID presence."@,
    )
}

pub fn child_ctx_for_presence(
    room_actor: &str,
    presence: &PresenceRecord,
    nick_override: Option<&str>,
) -> (r: Term)
    ensures
        r@ == presence_tree(
            room_actor@,
            presence@,
            match nick_override {
                Some(nick) => Some(nick@),
                None => None,
            },
        ),
{
    let nick = match nick_override {
        Some(nick) => nick,
        None => presence.display_nick(),
    };
    person_term(presence.did.as_str(), room_actor, nick, "A direct DID presence.")
}

/// An IRC-only user as a child of its room.
pub open spec fn fake_tree(runtime: Seq<char>, fragment: Seq<char>, nick: Seq<char>) -> TermView {
    person_tree(
        fake_url(runtime, nick),
        room_url(runtime, fragment),
        nick,
        "An IRC user in the channel."@,
    )
}

pub fn child_ctx_for_irc_fake(runtime_did: &str, room_fragment: &str, nick: &str) -> (r: Term)
    ensures
        r@ == fake_tree(runtime_did@, room_fragment@, nick@),
{
    let actor = irc_fake_actor(runtime_did, nick);
    let room_actor = room_actor_url(runtime_did, room_fragment);
    person_term(actor.as_str(), room_actor.as_str(), nick, "An IRC user in the channel.")
}

/// A room as the speaker of an event.
pub open spec fn speaking_room_tree(
    runtime: Seq<char>,
    room_actor: Seq<char>,
    label: Seq<char>,
) -> TermView {
    TermView::Record(
        no_fields()
            .push(text_entry("actor"@, room_actor))
            .push(text_entry("parent"@, runtime + "#root"@))
            .push(text_entry("kind"@, "room"@))
            .push(text_entry("protocol"@, "/ma/room/0.0.1"@))
            .push(text_entry("name"@, label))
            .push(text_entry("nick"@, label)),
    )
}

pub fn speaking_room(runtime_did: &str, room_actor: &str, label: &str) -> (r: Term)
    ensures
        r@ == speaking_room_tree(runtime_did@, room_actor@, label@),
{
    let mut fields = Fields::new();
    fields.put_text("actor", room_actor);
    fields.put_text("parent", runtime_did.to_owned().concat("#root").as_str());
    fields.put_text("kind", "room");
    fields.put_text("protocol", "/ma/room/0.0.1");
    fields.put_text("name", label);
    fields.put_text("nick", label);
    fields.into_record()
}

/// `[verb, ctx]`, or `[verb, ctx, text]`.
pub open spec fn event_tree(verb: Seq<char>, ctx: TermView, text: Option<Seq<char>>) -> TermView {
    match text {
        Some(text) => TermView::Array(seq![TermView::Text(verb), ctx, TermView::Text(text)]),
        None => TermView::Array(seq![TermView::Text(verb), ctx]),
    }
}

pub fn event_term(verb: &str, ctx: Term, text: Option<&str>) -> (r: Term)
    ensures
        r@ == event_tree(
            verb@,
            ctx@,
            match text {
                Some(text) => Some(text@),
                None => None,
            },
        ),
{
    let mut items: Vec<Term> = Vec::new();
    items.push(text_term(verb));
    items.push(ctx);
    match text {
        Some(text) => {
            items.push(text_term(text));
            assert(trees(items@) =~= seq![TermView::Text(verb@), ctx@, TermView::Text(text@)]);
        },
        None => {
            assert(trees(items@) =~= seq![TermView::Text(verb@), ctx@]);
        },
    }
    array(items)
}

// ---- a room and its children ----

/// An exit as a child of its room. Where its target is known, it is named by
/// its full address.
pub open spec fn exit_child(
    root: RootView,
    runtime: Seq<char>,
    room_actor: Seq<char>,
    exit: ExitView,
) -> (TermView, TermView) {
    let actor = runtime + exit.fragment;
    let fields = no_fields()
        .push(text_entry("actor"@, actor))
        .push(text_entry("kind"@, "exit"@))
        .push(text_entry("protocol"@, "/ma/exit/0.0.1"@))
        .push(text_entry("parent"@, room_actor))
        .push(text_entry("name"@, exit.name))
        .push(text_entry("nick"@, exit.name))
        .push(text_entry("description"@, "An exit leading "@ + exit.name + "."@))
        .push(text_entry("direction"@, exit.name));
    (
        TermView::Text(actor),
        TermView::Record(
            match url_of(root, runtime, exit.target) {
                Some(target) => fields.push(text_entry("target-room"@, target)),
                None => fields,
            },
        ),
    )
}

/// The occupants of a room, its exits, and the IRC-only users on its channel.
pub open spec fn children_of(
    root: RootView,
    runtime: Seq<char>,
    snapshot: SnapshotView,
) -> Seq<(TermView, TermView)> {
    let room_actor = room_url(runtime, snapshot.fragment);
    snapshot.presence.map_values(
        |presence: PresenceView|
            (TermView::Text(presence.did), presence_tree(room_actor, presence, None)),
    ) + snapshot.exits.map_values(|exit: ExitView| exit_child(root, runtime, room_actor, exit))
        + snapshot.irc_occupants.map_values(
        |nick: Seq<char>|
            (
                TermView::Text(fake_url(runtime, nick)),
                fake_tree(runtime, snapshot.fragment, nick),
            ),
    )
}

/// A room with its children.
pub open spec fn room_tree(
    root: RootView,
    runtime: Seq<char>,
    snapshot: SnapshotView,
) -> TermView {
    let fields = no_fields()
        .push(text_entry("protocol"@, "/ma/room/0.0.1"@))
        .push(text_entry("kind"@, "room"@))
        .push(text_entry("actor"@, room_url(runtime, snapshot.fragment)))
        .push(text_entry("parent"@, runtime + "#root"@))
        .push(entry("rev"@, TermView::Int(0)))
        .push(text_entry("name"@, snapshot.name))
        .push(text_entry("nick"@, snapshot.name))
        .push(text_entry("description"@, snapshot.description));
    let owned = match snapshot.owner {
        Some(owner) => fields.push(text_entry("owner"@, owner)),
        None => fields,
    };
    ok_tree(
        TermView::Record(
            owned
            .push(entry("children"@, TermView::Record(children_of(root, runtime, snapshot)))),
        ),
    )
}

fn exit_child_term(
    root: &RootActor,
    runtime_did: &str,
    room_actor: &str,
    exit: &RoomExit,
) -> (r: (String, Term))
    ensures
        (TermView::Text(r.0@), r.1@) == exit_child(root@, runtime_did@, room_actor@, exit@),
{
    let actor = runtime_did.to_owned().concat(exit.fragment.as_str());
    let mut fields = Fields::new();
    fields.put_text("actor", actor.as_str());
    fields.put_text("kind", "exit");
    fields.put_text("protocol", "/ma/exit/0.0.1");
    fields.put_text("parent", room_actor);
    fields.put_text("name", exit.name.as_str());
    fields.put_text("nick", exit.name.as_str());
    fields.put_text(
        "description",
        "An exit leading ".to_owned().concat(exit.name.as_str()).concat(".").as_str(),
    );
    fields.put_text("direction", exit.name.as_str());
    if let Some(target) = root.room_url(runtime_did, exit.target.as_str()) {
        fields.put_text("target-room", target.as_str());
    }
    (actor, fields.into_record())
}

fn children_term(root: &RootActor, runtime_did: &str, snapshot: &RoomSnapshot) -> (r: Term)
    ensures
        r@ == TermView::Record(children_of(root@, runtime_did@, snapshot@)),
{
    let room_actor = room_actor_url(runtime_did, snapshot.fragment.as_str());
    let ghost people = snapshot@.presence.map_values(
        |presence: PresenceView|
            (TermView::Text(presence.did), presence_tree(room_actor@, presence, None)),
    );
    let ghost exits = snapshot@.exits.map_values(
        |exit: ExitView| exit_child(root@, runtime_did@, room_actor@, exit),
    );
    let ghost fakes = snapshot@.irc_occupants.map_values(
        |nick: Seq<char>|
            (
                TermView::Text(fake_url(runtime_did@, nick)),
                fake_tree(runtime_did@, snapshot@.fragment, nick),
            ),
    );
    let mut children = Fields::new();
    let mut i: usize = 0;
    while i < snapshot.presence.len()
        invariant
            i <= snapshot.presence@.len(),
            people == snapshot@.presence.map_values(
                |presence: PresenceView|
                    (TermView::Text(presence.did), presence_tree(room_actor@, presence, None)),
            ),
            children@ =~= people.take(i as int),
        decreases snapshot.presence@.len() - i,
    {
        let presence = &snapshot.presence[i];
        assert(snapshot@.presence[i as int] == presence@);
        let child = child_ctx_for_presence(room_actor.as_str(), presence, None);
        children.put(presence.did.as_str(), child);
        i += 1;
    }
    assert(children@ =~= people);
    let mut j: usize = 0;
    while j < snapshot.exits.len()
        invariant
            j <= snapshot.exits@.len(),
            exits == snapshot@.exits.map_values(
                |exit: ExitView| exit_child(root@, runtime_did@, room_actor@, exit),
            ),
            children@ =~= people + exits.take(j as int),
        decreases snapshot.exits@.len() - j,
    {
        let exit = &snapshot.exits[j];
        assert(snapshot@.exits[j as int] == exit@);
        let (actor, child) = exit_child_term(root, runtime_did, room_actor.as_str(), exit);
        children.put(actor.as_str(), child);
        j += 1;
    }
    assert(children@ =~= people + exits);
    let mut k: usize = 0;
    while k < snapshot.irc_occupants.len()
        invariant
            k <= snapshot.irc_occupants@.len(),
            fakes == snapshot@.irc_occupants.map_values(
                |nick: Seq<char>|
                    (
                        TermView::Text(fake_url(runtime_did@, nick)),
                        fake_tree(runtime_did@, snapshot@.fragment, nick),
                    ),
            ),
            children@ =~= people + exits + fakes.take(k as int),
        decreases snapshot.irc_occupants@.len() - k,
    {
        let nick = snapshot.irc_occupants[k].as_str();
        assert(snapshot@.irc_occupants[k as int] == nick@);
        let actor = irc_fake_actor(runtime_did, nick);
        let child = child_ctx_for_irc_fake(runtime_did, snapshot.fragment.as_str(), nick);
        children.put(actor.as_str(), child);
        k += 1;
    }
    assert(children@ =~= people + exits + fakes);
    children.into_record()
}

/// A room with its children: occupants, exits and IRC-only users, so clients
/// list them and find exits for `go`.
pub fn room_ctx_term(runtime_did: &str, root: &RootActor, snapshot: &RoomSnapshot) -> (r: Term)
    ensures
        r@ == room_tree(root@, runtime_did@, snapshot@),
{
    let mut fields = Fields::new();
    fields.put_text("protocol", "/ma/room/0.0.1");
    fields.put_text("kind", "room");
    fields.put_text(
        "actor",
        room_actor_url(runtime_did, snapshot.fragment.as_str()).as_str(),
    );
    fields.put_text("parent", runtime_did.to_owned().concat("#root").as_str());
    fields.put_int("rev", 0);
    fields.put_text("name", snapshot.name.as_str());
    fields.put_text("nick", snapshot.name.as_str());
    fields.put_text("description", snapshot.description.as_str());
    if let Some(owner) = &snapshot.owner {
        fields.put_text("owner", owner.as_str());
    }
    fields.put("children", children_term(root, runtime_did, snapshot));
    ok_term(fields.into_record())
}

// ---- services ----

/// The address under which an endpoint offers a protocol.
pub open spec fn service(endpoint_id: Seq<char>, protocol: Seq<char>) -> Seq<char> {
    "/iroh/"@ + endpoint_id + protocol
}

/// The addresses under which an endpoint offers its protocols.
pub fn services(endpoint_id: &str, protocols: &[&str]) -> (r: Vec<String>)
    ensures
        texts(r@) == str_texts(protocols@).map_values(
            |protocol: Seq<char>| service(endpoint_id@, protocol),
        ),
{
    let ghost all = str_texts(protocols@).map_values(
        |protocol: Seq<char>| service(endpoint_id@, protocol),
    );
    let mut out: Vec<String> = Vec::new();
    let mut i: usize = 0;
    while i < protocols.len()
        invariant
            i <= protocols@.len(),
            all == str_texts(protocols@).map_values(
                |protocol: Seq<char>| service(endpoint_id@, protocol),
            ),
            texts(out@) =~= all.take(i as int),
        decreases protocols@.len() - i,
    {
        let ghost before = texts(out@);
        out.push("/iroh/".to_owned().concat(endpoint_id).concat(protocols[i]));
        assert(texts(out@) =~= before.push(all[i as int]));
        i += 1;
    }
    assert(texts(out@) =~= all);
    out
}

} // verus!
