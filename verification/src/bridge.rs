//! What a room bridge decides: how an occupant joins the channel, what is said
//! there, and what the room makes of the events it observes.

use vstd::prelude::*;
use vstd::string::*;

use crate::channel::line::{EventView, IrcEvent};
use crate::channel::nick::{
    desired_irc_nick, desired_nick, joining_irc_nick, joining_nick, nick_word, presented_nick,
};
use crate::channel::room::{
    deactivated, fake_gone, is_fake, is_mirror_nick, left, lists_presence, mirror_is, mirrored,
    presence_views, seen_joining, synced, unmirrored, PresenceRecord, PresenceView, RoomActor,
    RoomView,
};
use crate::channel::session::{action_line, ctcp_action, names_line, privmsg, privmsg_line};
use crate::collections::{held, texts};
use crate::error::{outcome, Error};
use crate::root::model::{room_key, with_room, RootView};
use crate::root::RootActor;
use crate::rpc_transport::dispatch::{lists_occupants, Notice, NoticeView};
use crate::rpc_transport::wire::{
    child_ctx_for_irc_fake, child_ctx_for_presence, event_term, event_tree, fake_tree,
    presence_tree, room_actor_url, room_url, speaking_room, speaking_room_tree,
};
use crate::term::{trees, Term, TermView};
use crate::text::{eq_ignoring_case, no_text, same_ignoring_case};

pub mod laws;

verus! {

// ---- joining the channel ----

/// What the bridge does about an occupant that is to be on the channel.
#[derive(Debug)]
pub enum JoinPlan {
    /// Open a session under this nick.
    Connect { nick: String },
    /// Ask for this nick in the session that there is.
    Rename { nick: String },
    Stay,
}

/// What a `JoinPlan` holds.
pub enum JoinPlanView {
    Connect { nick: Seq<char> },
    Rename { nick: Seq<char> },
    Stay,
}

impl View for JoinPlan {
    type V = JoinPlanView;

    open spec fn view(&self) -> JoinPlanView {
        match self {
            JoinPlan::Connect { nick } => JoinPlanView::Connect { nick: nick@ },
            JoinPlan::Rename { nick } => JoinPlanView::Rename { nick: nick@ },
            JoinPlan::Stay => JoinPlanView::Stay,
        }
    }
}

/// The nick that `did` has on the channel of the room named `name`, or nothing.
pub open spec fn channel_nick(root: RootView, name: Seq<char>, did: Seq<char>) -> Seq<char> {
    match room_key(root, name) {
        Some(f) => if root.entities[f].irc_mirrors.contains_key(did) {
            root.entities[f].irc_mirrors[did]
        } else {
            Seq::empty()
        },
        None => Seq::empty(),
    }
}

/// An occupant without a session gets one. An occupant with a session that
/// presents another nick than it has on the channel asks for that nick; one that
/// presents none keeps the nick it has.
pub open spec fn join_plan(
    root: RootView,
    name: Seq<char>,
    room_nick: Seq<char>,
    connected: bool,
    did: Seq<char>,
    ctx: Seq<char>,
) -> JoinPlanView {
    if !connected {
        JoinPlanView::Connect { nick: joining_nick(ctx, room_nick, did) }
    } else if nick_word(ctx) is None {
        JoinPlanView::Stay
    } else {
        let desired = desired_nick(Some(ctx), did);
        if same_ignoring_case(channel_nick(root, name, did), desired) {
            JoinPlanView::Stay
        } else {
            JoinPlanView::Rename { nick: desired }
        }
    }
}

pub fn plan_join(
    root: &RootActor,
    room: &str,
    room_nick: &str,
    connected: bool,
    did: &str,
    ctx: &str,
) -> (r: JoinPlan)
    ensures
        r@ == join_plan(root@, room@, room_nick@, connected, did@, ctx@),
{
    if !connected {
        return JoinPlan::Connect { nick: joining_irc_nick(ctx, room_nick, did) };
    }
    // Re-entry without a nick word carries no rename intent.
    match presented_nick(ctx) {
        None => {
            return JoinPlan::Stay;
        },
        Some(_) => {},
    }
    let desired = desired_irc_nick(Some(ctx), did);
    let current = match root.find_room(room) {
        Some((_, room)) => match room.irc_mirror_nick(did) {
            Some(nick) => nick,
            None => no_text(),
        },
        None => no_text(),
    };
    if eq_ignoring_case(current, desired.as_str()) {
        JoinPlan::Stay
    } else {
        JoinPlan::Rename { nick: desired }
    }
}

/// What follows an attempt to join the channel.
#[derive(Debug)]
pub enum AfterJoin {
    /// Tell the one who waits how it went.
    Tell,
    /// Put the occupant out of the room.
    Kick,
    Nothing,
}

/// Whoever waits for a join is told how it went. A join that nobody waits for
/// must not silently strand an occupant whose nick the channel rejected.
pub fn after_join(waited: bool, failed: bool) -> (r: AfterJoin)
    ensures
        r is Tell <==> waited,
        r is Kick <==> !waited && failed,
        r is Nothing <==> !waited && !failed,
{
    if waited {
        AfterJoin::Tell
    } else if failed {
        AfterJoin::Kick
    } else {
        AfterJoin::Nothing
    }
}

/// Whether the bridge of a room ends: when it is told to, and when the room is
/// there no longer.
pub fn bridge_ends(root: &RootActor, fragment: &str, told: bool) -> (r: bool)
    ensures
        r == (told || !root@.entities.contains_key(fragment@)),
{
    told || !root.has_room(fragment)
}

/// The room without `did`, in it and on its channel.
pub open spec fn kicked(room: RoomView, did: Seq<char>) -> RoomView {
    unmirrored(left(room, did), did)
}

/// What is told to an occupant that was put out because the channel refused its
/// nick.
pub open spec fn kick_notice(
    runtime: Seq<char>,
    fragment: Seq<char>,
    label: Seq<char>,
    did: Seq<char>,
    error: Seq<char>,
) -> NoticeView {
    let room_actor = room_url(runtime, fragment);
    NoticeView {
        from_actor: room_actor,
        to: did,
        term: event_tree(
            ":say"@,
            speaking_room_tree(runtime, room_actor, label),
            Some(
                "your IRC nick could not be registered on the channel ("@ + error
                    + "); re-enter with a different nick"@,
            ),
        ),
    }
}

/// Remove an occupant whose nick could not be registered on the channel
/// and tell them to re-enter with a different nick. Used only for the
/// joins of occupants that were in the room when it was connected.
pub fn kick_occupant(
    root: &mut RootActor,
    runtime_did: &str,
    fragment: &str,
    did: &str,
    error: &Error,
) -> (r: Option<Notice>)
    ensures
        match room_key(old(root)@, fragment@) {
            Some(f) => {
                let room = old(root)@.entities[f];
                &&& final(root)@ == with_room(old(root)@, f, kicked(room, did@))
                &&& r is Some
                &&& r->0@ == kick_notice(runtime_did@, fragment@, room.label, did@, error@)
            },
            None => r is None && final(root)@ == old(root)@,
        },
{
    let label = match root.entity_mut(fragment) {
        Some(room) => {
            room.leave(did);
            room.unregister_irc_mirror(did);
            room.label.clone()
        },
        None => {
            return None;
        },
    };
    let room_actor = room_actor_url(runtime_did, fragment);
    let ctx = speaking_room(runtime_did, room_actor.as_str(), label.as_str());
    let text = "your IRC nick could not be registered on the channel (".to_owned().concat(
        error.message(),
    ).concat("); re-enter with a different nick");
    let term = event_term(":say", ctx, Some(text.as_str()));
    Some(Notice { from_actor: room_actor, to: did.to_owned(), term })
}

/// The root with one of its rooms changed, if there is such a room.
pub open spec fn changed(
    root: RootView,
    name: Seq<char>,
    change: spec_fn(RoomView) -> RoomView,
) -> RootView {
    match room_key(root, name) {
        Some(f) => with_room(root, f, change(root.entities[f])),
        None => root,
    }
}

/// The root with an occupant of a room off its channel.
pub open spec fn off_channel(root: RootView, name: Seq<char>, did: Seq<char>) -> RootView {
    changed(root, name, |room: RoomView| unmirrored(room, did))
}

/// The root with a room that no session tells anything about its channel.
pub open spec fn unobserved(root: RootView, name: Seq<char>) -> RootView {
    changed(root, name, |room: RoomView| synced(room, Seq::empty()))
}

/// The root with the channel of a room switched off.
pub open spec fn switched_off(root: RootView, name: Seq<char>) -> RootView {
    changed(root, name, |room: RoomView| deactivated(room))
}

/// An occupant is off the channel.
pub fn drop_mirror(root: &mut RootActor, fragment: &str, did: &str)
    ensures
        final(root)@ == off_channel(old(root)@, fragment@, did@),
{
    if let Some(room) = root.entity_mut(fragment) {
        room.unregister_irc_mirror(did);
    }
}

/// With no live channel session there is nothing to observe: drop the
/// stale untrusted list rather than presenting ghosts.
pub fn forget_occupants(root: &mut RootActor, fragment: &str)
    ensures
        final(root)@ == unobserved(old(root)@, fragment@),
{
    let nobody: Vec<String> = Vec::new();
    assert(texts(nobody@) =~= Seq::<Seq<char>>::empty());
    if let Some(room) = root.entity_mut(fragment) {
        room.sync_irc_occupants(nobody.as_slice());
    }
}

/// The line that asks a live session who is on the channel. Without a session
/// the list of IRC-only users is dropped, and there is nothing to ask.
pub fn resync(root: &mut RootActor, fragment: &str, channel: &str, connected: bool) -> (r: Option<
    String,
>)
    ensures
        held(r) == (if connected {
            Some("NAMES "@ + channel@)
        } else {
            None
        }),
        final(root)@ == (if connected {
            old(root)@
        } else {
            unobserved(old(root)@, fragment@)
        }),
{
    if connected {
        Some(names_line(channel))
    } else {
        forget_occupants(root, fragment);
        None
    }
}

/// The room's channel is switched off.
pub fn switch_off(root: &mut RootActor, fragment: &str)
    ensures
        final(root)@ == switched_off(old(root)@, fragment@),
{
    if let Some(room) = root.entity_mut(fragment) {
        room.deactivate_irc();
    }
}

// ---- speech from the room ----

/// The line that carries speech to the channel.
pub open spec fn speech(channel: Seq<char>, text: Seq<char>, emote: bool) -> Result<
    Seq<char>,
    Seq<char>,
> {
    if emote {
        privmsg(channel, ctcp_action(text))
    } else {
        privmsg(channel, text)
    }
}

pub fn speech_line(channel: &str, text: &str, emote: bool) -> (r: Result<String, Error>)
    ensures
        outcome(r) == speech(channel@, text@, emote),
{
    if emote {
        action_line(channel, text)
    } else {
        privmsg_line(channel, text)
    }
}

/// Terms for every occupant of a room.
#[derive(Debug)]
pub struct News {
    pub terms: Vec<Term>,
    pub presence: Vec<PresenceRecord>,
}

/// What a `News` holds.
pub struct NewsView {
    pub terms: Seq<TermView>,
    pub presence: Seq<PresenceView>,
}

impl View for News {
    type V = NewsView;

    open spec fn view(&self) -> NewsView {
        NewsView { terms: trees(self.terms@), presence: presence_views(self.presence@) }
    }
}

pub open spec fn no_news() -> NewsView {
    NewsView { terms: Seq::empty(), presence: Seq::empty() }
}

pub open spec fn speech_verb(emote: bool) -> Seq<char> {
    if emote {
        ":emote"@
    } else {
        ":say"@
    }
}

fn verb_for(emote: bool) -> (r: &'static str)
    ensures
        r@ == speech_verb(emote),
{
    if emote {
        ":emote"
    } else {
        ":say"
    }
}

/// What an occupant said on the channel, repeated into its room under the nick
/// it has there.
pub open spec fn echo(
    room: RoomView,
    runtime: Seq<char>,
    fragment: Seq<char>,
    did: Seq<char>,
    text: Seq<char>,
    emote: bool,
) -> Seq<TermView> {
    if room.irc_mirrors.contains_key(did) && room.presence.contains_key(did) {
        seq![
            event_tree(
                speech_verb(emote),
                presence_tree(
                    room_url(runtime, fragment),
                    room.presence[did],
                    Some(room.irc_mirrors[did]),
                ),
                Some(text),
            ),
        ]
    } else {
        Seq::empty()
    }
}

fn one_term(term: Term) -> (r: Vec<Term>)
    ensures
        trees(r@) == seq![term@],
{
    let mut terms: Vec<Term> = Vec::new();
    terms.push(term);
    assert(trees(terms@) =~= seq![term@]);
    terms
}

fn no_terms() -> (r: Vec<Term>)
    ensures
        trees(r@) == Seq::<TermView>::empty(),
        r@.len() == 0,
{
    let terms: Vec<Term> = Vec::new();
    assert(trees(terms@) =~= Seq::<TermView>::empty());
    terms
}

/// Whether `news` brings `terms` to the occupants of the room named `name`.
pub open spec fn brings(
    news: NewsView,
    root: RootView,
    name: Seq<char>,
    terms: Seq<TermView>,
) -> bool {
    &&& news.terms == terms
    &&& terms.len() > 0 ==> lists_occupants(news.presence, root, name)
    &&& terms.len() == 0 ==> news.presence.len() == 0
}

/// The news for the occupants of a room.
fn news_for(room: &RoomActor, terms: Vec<Term>) -> (r: News)
    ensures
        r@.terms == trees(terms@),
        terms@.len() > 0 ==> lists_presence(r@.presence, room@.presence),
        terms@.len() == 0 ==> r@.presence.len() == 0,
{
    if terms.len() == 0 {
        News { terms, presence: Vec::new() }
    } else {
        News { terms, presence: room.presence_list() }
    }
}

/// Once an occupant's text went to the channel, echo it into the room (IRC does
/// not echo a sender's own PRIVMSG back).
pub fn echo_speech(
    root: &RootActor,
    runtime_did: &str,
    fragment: &str,
    did: &str,
    text: &str,
    emote: bool,
) -> (r: News)
    ensures
        brings(
            r@,
            root@,
            fragment@,
            match room_key(root@, fragment@) {
                Some(f) => echo(
                    root@.entities[f],
                    runtime_did@,
                    fragment@,
                    did@,
                    text@,
                    emote,
                ),
                None => Seq::empty(),
            },
        ),
{
    match root.find_room(fragment) {
        Some((_, room)) => {
            let terms = match (room.irc_mirror_nick(did), room.presence.get(did)) {
                (Some(nick), Some(record)) => {
                    let room_actor = room_actor_url(runtime_did, fragment);
                    let ctx = child_ctx_for_presence(room_actor.as_str(), record, Some(nick));
                    one_term(event_term(verb_for(emote), ctx, Some(text)))
                },
                _ => no_terms(),
            };
            news_for(room, terms)
        },
        None => News { terms: no_terms(), presence: Vec::new() },
    }
}

// ---- events on the channel ----

/// The nick that an event is about, where it may be one of an occupant that
/// left or renamed itself.
pub open spec fn subject(event: EventView) -> Option<Seq<char>> {
    match event {
        EventView::Parted { nick } => Some(nick),
        EventView::Quit { nick } => Some(nick),
        EventView::Renamed { old_nick, new_nick } => Some(old_nick),
        _ => None,
    }
}

/// Whether `mirror` is an occupant that the event is about, if there is one.
pub open spec fn concerns(room: RoomView, event: EventView, mirror: Seq<char>) -> bool {
    match subject(event) {
        Some(nick) => is_mirror_nick(room, nick) ==> mirror_is(room, mirror, nick),
        None => true,
    }
}

/// Speech of an IRC-only user, who is on the channel by definition. The speech
/// of an occupant is the echo of what was told to the room when it was sent.
pub open spec fn spoken(
    room: RoomView,
    runtime: Seq<char>,
    fragment: Seq<char>,
    nick: Seq<char>,
    text: Seq<char>,
    emote: bool,
) -> (RoomView, Seq<TermView>) {
    if is_mirror_nick(room, nick) {
        (room, Seq::empty())
    } else {
        (
            seen_joining(room, nick),
            seq![
                event_tree(speech_verb(emote), fake_tree(runtime, fragment, nick), Some(text)),
            ],
        )
    }
}

/// An IRC-only user comes or goes.
pub open spec fn passage(
    runtime: Seq<char>,
    fragment: Seq<char>,
    verb: Seq<char>,
    nick: Seq<char>,
) -> TermView {
    event_tree(verb, fake_tree(runtime, fragment, nick), None)
}

/// The room after an event of the session of `did`, and what its occupants are
/// told. `mirror` is the occupant that the event is about, if there is one.
pub open spec fn room_event(
    room: RoomView,
    runtime: Seq<char>,
    fragment: Seq<char>,
    did: Seq<char>,
    event: EventView,
    mirror: Seq<char>,
) -> (RoomView, Seq<TermView>) {
    match event {
        EventView::Ready { nick } => (mirrored(room, did, nick), Seq::empty()),
        EventView::Message { nick, text } => spoken(room, runtime, fragment, nick, text, false),
        EventView::Action { nick, text } => spoken(room, runtime, fragment, nick, text, true),
        EventView::Joined { nick } => (
            seen_joining(room, nick),
            if is_mirror_nick(room, nick) || is_fake(room, nick) {
                Seq::empty()
            } else {
                seq![passage(runtime, fragment, ":arrive"@, nick)]
            },
        ),
        EventView::Parted { nick } => departed(room, runtime, fragment, nick, mirror),
        EventView::Quit { nick } => departed(room, runtime, fragment, nick, mirror),
        EventView::Renamed { old_nick, new_nick } => if is_mirror_nick(room, old_nick) {
            (mirrored(room, mirror, new_nick), Seq::empty())
        } else if !is_fake(room, old_nick) {
            (room, Seq::empty())
        } else {
            let gone = fake_gone(room, old_nick);
            let leaves = seq![passage(runtime, fragment, ":leave"@, old_nick)];
            if is_mirror_nick(room, new_nick) {
                (gone, leaves)
            } else if is_fake(gone, new_nick) {
                (seen_joining(gone, new_nick), leaves)
            } else {
                (
                    seen_joining(gone, new_nick),
                    leaves.push(passage(runtime, fragment, ":arrive"@, new_nick)),
                )
            }
        },
        EventView::Names { nicks } => (synced(room, nicks), Seq::empty()),
        EventView::Disconnected => (unmirrored(room, did), Seq::empty()),
    }
}

/// A nick left the channel. An occupant whose session ended stays in the room.
pub open spec fn departed(
    room: RoomView,
    runtime: Seq<char>,
    fragment: Seq<char>,
    nick: Seq<char>,
    mirror: Seq<char>,
) -> (RoomView, Seq<TermView>) {
    if is_mirror_nick(room, nick) {
        (unmirrored(room, mirror), Seq::empty())
    } else if is_fake(room, nick) {
        (fake_gone(room, nick), seq![passage(runtime, fragment, ":leave"@, nick)])
    } else {
        (room, Seq::empty())
    }
}

fn passage_term(runtime_did: &str, fragment: &str, verb: &str, nick: &str) -> (r: Term)
    ensures
        r@ == passage(runtime_did@, fragment@, verb@, nick@),
{
    event_term(verb, child_ctx_for_irc_fake(runtime_did, fragment, nick), None)
}

fn observe_speech(
    room: &mut RoomActor,
    runtime_did: &str,
    fragment: &str,
    nick: &str,
    text: &str,
    emote: bool,
) -> (r: Vec<Term>)
    ensures
        (final(room)@, trees(r@)) == spoken(
            old(room)@,
            runtime_did@,
            fragment@,
            nick@,
            text@,
            emote,
        ),
{
    if room.nick_is_irc_mirror(nick) {
        return no_terms();
    }
    let _ = room.observe_irc_join(nick);
    let ctx = child_ctx_for_irc_fake(runtime_did, fragment, nick);
    one_term(event_term(verb_for(emote), ctx, Some(text)))
}

fn observe_departure(room: &mut RoomActor, runtime_did: &str, fragment: &str, nick: &str) -> (r: (
    Vec<Term>,
    Ghost<Seq<char>>,
))
    ensures
        is_mirror_nick(old(room)@, nick@) ==> mirror_is(old(room)@, r.1@, nick@),
        (final(room)@, trees(r.0@)) == departed(
            old(room)@,
            runtime_did@,
            fragment@,
            nick@,
            r.1@,
        ),
{
    let fake_left = room.observe_irc_part(nick);
    let ghost mirror = choose|did: Seq<char>| #[trigger]
        mirror_is(old(room)@, did, nick@) && room@ == unmirrored(old(room)@, did);
    if fake_left {
        (one_term(passage_term(runtime_did, fragment, ":leave", nick)), Ghost(mirror))
    } else {
        proof {
            if !is_mirror_nick(old(room)@, nick@) {
                assert(room@.irc_occupants =~= old(room)@.irc_occupants);
            }
        }
        (no_terms(), Ghost(mirror))
    }
}

fn observe_rename(
    room: &mut RoomActor,
    runtime_did: &str,
    fragment: &str,
    old_nick: &str,
    new_nick: &str,
) -> (r: (Vec<Term>, Ghost<Seq<char>>))
    ensures
        is_mirror_nick(old(room)@, old_nick@) ==> mirror_is(old(room)@, r.1@, old_nick@),
        forall|did: Seq<char>|
            (final(room)@, trees(r.0@)) == #[trigger] room_event(
                old(room)@,
                runtime_did@,
                fragment@,
                did,
                EventView::Renamed { old_nick: old_nick@, new_nick: new_nick@ },
                r.1@,
            ),
{
    let (fake_left, fake_arrived) = room.observe_irc_rename(old_nick, new_nick);
    let ghost mirror = choose|did: Seq<char>| #[trigger]
        mirror_is(old(room)@, did, old_nick@) && room@ == mirrored(old(room)@, did, new_nick@);
    let mut terms = no_terms();
    if fake_left {
        terms.push(passage_term(runtime_did, fragment, ":leave", old_nick));
        assert(trees(terms@) =~= seq![
            passage(runtime_did@, fragment@, ":leave"@, old_nick@),
        ]);
    }
    if fake_arrived {
        let ghost before = trees(terms@);
        terms.push(passage_term(runtime_did, fragment, ":arrive", new_nick));
        assert(trees(terms@) =~= before.push(
            passage(runtime_did@, fragment@, ":arrive"@, new_nick@),
        ));
    }
    (terms, Ghost(mirror))
}

/// Brings a room up to date with an event on its channel: what its occupants
/// are told.
fn observe_event(
    room: &mut RoomActor,
    runtime_did: &str,
    fragment: &str,
    did: &str,
    event: &IrcEvent,
) -> (r: (Vec<Term>, Ghost<Seq<char>>))
    ensures
        concerns(old(room)@, event@, r.1@),
        (final(room)@, trees(r.0@)) == room_event(
            old(room)@,
            runtime_did@,
            fragment@,
            did@,
            event@,
            r.1@,
        ),
{
    match event {
        IrcEvent::Ready { nick } => {
            room.register_irc_mirror(did, nick.clone());
            (no_terms(), Ghost(Seq::empty()))
        },
        IrcEvent::Message { nick, text } => (
            observe_speech(room, runtime_did, fragment, nick.as_str(), text.as_str(), false),
            Ghost(Seq::empty()),
        ),
        IrcEvent::Action { nick, text } => (
            observe_speech(room, runtime_did, fragment, nick.as_str(), text.as_str(), true),
            Ghost(Seq::empty()),
        ),
        IrcEvent::Joined { nick } => {
            let arrived = room.observe_irc_join(nick.as_str());
            let terms = if arrived {
                one_term(passage_term(runtime_did, fragment, ":arrive", nick.as_str()))
            } else {
                no_terms()
            };
            (terms, Ghost(Seq::empty()))
        },
        IrcEvent::Parted { nick } => observe_departure(
            room,
            runtime_did,
            fragment,
            nick.as_str(),
        ),
        IrcEvent::Quit { nick } => observe_departure(room, runtime_did, fragment, nick.as_str()),
        IrcEvent::Renamed { old: old_nick, new: new_nick } => observe_rename(
            room,
            runtime_did,
            fragment,
            old_nick.as_str(),
            new_nick.as_str(),
        ),
        IrcEvent::Names { nicks } => {
            room.sync_irc_occupants(nicks.as_slice());
            (no_terms(), Ghost(Seq::empty()))
        },
        IrcEvent::Disconnected => {
            room.unregister_irc_mirror(did);
            (no_terms(), Ghost(Seq::empty()))
        },
    }
}

/// Handle an event of the channel session of `did`: the room is brought up to
/// date, and its occupants are told what concerns them.
pub fn handle_event(
    root: &mut RootActor,
    runtime_did: &str,
    fragment: &str,
    did: &str,
    event: &IrcEvent,
) -> (r: News)
    ensures
        match room_key(old(root)@, fragment@) {
            None => final(root)@ == old(root)@ && r@ == no_news(),
            Some(f) => exists|mirror: Seq<char>|
                concerns(old(root)@.entities[f], event@, mirror) && {
                    let (room, terms) = #[trigger] room_event(
                        old(root)@.entities[f],
                        runtime_did@,
                        fragment@,
                        did@,
                        event@,
                        mirror,
                    );
                    final(root)@ == with_room(old(root)@, f, room) && brings(
                        r@,
                        final(root)@,
                        fragment@,
                        terms,
                    )
                },
        },
{
    match root.entity_mut(fragment) {
        Some(room) => {
            let (terms, mirror) = observe_event(room, runtime_did, fragment, did, event);
            let news = news_for(room, terms);
            news
        },
        None => {
            let news = News { terms: no_terms(), presence: Vec::new() };
            assert(news@.presence =~= Seq::<PresenceView>::empty());
            news
        },
    }
}

} // verus!
