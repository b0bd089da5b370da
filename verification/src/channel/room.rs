//! A room: its props, exits, occupants, entry policy, and channel.

use vstd::prelude::*;
use vstd::string::*;

use crate::channel::dig::{RoomSpec, SpecView};
use crate::channel::endpoint::{join_refusal, unbound, BindingView, IrcBinding};
use crate::channel::nick::{nick_word, presented_nick};
use crate::collections::{lent, lists_keys, texts, StringMap, StringSet};
use crate::error::Error;
use crate::ids::{draw_exit_fragment, is_exit_fragment};
use crate::order::{
    keys_of, lemma_sorted_values, lemma_walk_counts, lists_values, sort_texts, sorted_values,
};
use crate::text::{
    eq_ignoring_case, lower, lowered, no_text, same_ignoring_case, same_text,
};

verus! {

// ---- entry policy ----

/// Who may enter a room.
#[derive(Debug)]
pub struct ChannelEntryPolicy {
    pub allow: bool,
    pub allow_dids: StringSet,
    pub deny_dids: StringSet,
}

/// What a `ChannelEntryPolicy` holds.
#[verifier::ext_equal]
pub struct PolicyView {
    pub allow: bool,
    pub allow_dids: Set<Seq<char>>,
    pub deny_dids: Set<Seq<char>>,
}

impl View for ChannelEntryPolicy {
    type V = PolicyView;

    open spec fn view(&self) -> PolicyView {
        PolicyView {
            allow: self.allow,
            allow_dids: self.allow_dids@,
            deny_dids: self.deny_dids@,
        }
    }
}

/// A policy that names nobody.
pub open spec fn policy_for_all(allow: bool) -> PolicyView {
    PolicyView { allow, allow_dids: Set::empty(), deny_dids: Set::empty() }
}

/// Whether the policy lets `did` in.
pub open spec fn admits(policy: PolicyView, did: Seq<char>) -> bool {
    !policy.deny_dids.contains(did) && (policy.allow || policy.allow_dids.contains(did))
}

impl ChannelEntryPolicy {
    pub fn open() -> (r: ChannelEntryPolicy)
        ensures
            r@ == policy_for_all(true),
    {
        ChannelEntryPolicy {
            allow: true,
            allow_dids: StringSet::new(),
            deny_dids: StringSet::new(),
        }
    }

    pub fn closed() -> (r: ChannelEntryPolicy)
        ensures
            r@ == policy_for_all(false),
    {
        ChannelEntryPolicy {
            allow: false,
            allow_dids: StringSet::new(),
            deny_dids: StringSet::new(),
        }
    }

    pub fn can_enter(&self, did: &str) -> (r: bool)
        ensures
            r == admits(self@, did@),
    {
        if self.deny_dids.contains(did) {
            return false;
        }
        if self.allow {
            return true;
        }
        self.allow_dids.contains(did)
    }

    pub fn set_allow(&mut self, allow: bool)
        ensures
            final(self)@ == (PolicyView { allow, ..old(self)@ }),
    {
        self.allow = allow;
    }

    pub fn allow_did(&mut self, did: &str)
        ensures
            final(self)@ == (PolicyView {
                allow_dids: old(self)@.allow_dids.insert(did@),
                ..old(self)@
            }),
    {
        self.allow_dids.insert(did.to_owned());
    }

    pub fn deny_did(&mut self, did: &str)
        ensures
            final(self)@ == (PolicyView {
                deny_dids: old(self)@.deny_dids.insert(did@),
                ..old(self)@
            }),
    {
        self.deny_dids.insert(did.to_owned());
    }
}

/// Deny wins: who is denied does not get in, whatever else the policy says.
pub proof fn deny_wins(policy: PolicyView, did: Seq<char>)
    requires
        policy.deny_dids.contains(did),
    ensures
        !admits(policy, did),
{
}

/// A closed policy admits exactly those of its allowlist that it does not deny.
pub proof fn closed_policy_requires_allowlist(policy: PolicyView, did: Seq<char>)
    requires
        !policy.allow,
    ensures
        admits(policy, did) <==> policy.allow_dids.contains(did) && !policy.deny_dids.contains(did),
{
}

// ---- presence and exits ----

/// An occupant of a room.
#[derive(Debug)]
pub struct PresenceRecord {
    pub did: String,
    pub ctx: String,
}

/// What a `PresenceRecord` holds.
#[verifier::ext_equal]
pub struct PresenceView {
    pub did: Seq<char>,
    pub ctx: Seq<char>,
}

impl View for PresenceRecord {
    type V = PresenceView;

    open spec fn view(&self) -> PresenceView {
        PresenceView { did: self.did@, ctx: self.ctx@ }
    }
}

impl Clone for PresenceRecord {
    fn clone(&self) -> (r: PresenceRecord)
        ensures
            r@ == self@,
    {
        PresenceRecord { did: self.did.clone(), ctx: self.ctx.clone() }
    }
}

/// The nick that an occupant presents: its nick word, or else its DID.
pub open spec fn shown_nick(presence: PresenceView) -> Seq<char> {
    match nick_word(presence.ctx) {
        Some(nick) => nick,
        None => presence.did,
    }
}

impl PresenceRecord {
    /// The human-readable nick this presence presents in the room: its ctx
    /// when the ctx is a plain nick word, otherwise the bare DID.
    pub fn display_nick(&self) -> (r: &str)
        ensures
            r@ == shown_nick(self@),
    {
        match presented_nick(self.ctx.as_str()) {
            Some(nick) => nick,
            None => self.did.as_str(),
        }
    }
}

/// What the records of a vector hold.
pub open spec fn presence_views(list: Seq<PresenceRecord>) -> Seq<PresenceView> {
    list.map_values(|record: PresenceRecord| record@)
}

/// Whether `list` names every occupant once, in whatever order.
pub open spec fn lists_presence(
    list: Seq<PresenceView>,
    presence: Map<Seq<char>, PresenceView>,
) -> bool {
    exists|keys: Seq<Seq<char>>| #[trigger]
        lists_keys(keys, presence) && list == keys.map_values(|k: Seq<char>| presence[k])
}

/// A way out of a room.
#[derive(Debug)]
pub struct RoomExit {
    /// Direction/name word clients resolve on (`go north`).
    pub name: String,
    /// Destination: a full DID-URL or a local room fragment/label.
    /// The wire layer always resolves this to a full DID-URL.
    pub target: String,
    /// Addressable child fragment (`#exit-…`), dialable as `:traverse`.
    pub fragment: String,
}

/// What a `RoomExit` holds.
#[verifier::ext_equal]
pub struct ExitView {
    pub name: Seq<char>,
    pub target: Seq<char>,
    pub fragment: Seq<char>,
}

impl View for RoomExit {
    type V = ExitView;

    open spec fn view(&self) -> ExitView {
        ExitView { name: self.name@, target: self.target@, fragment: self.fragment@ }
    }
}

impl Clone for RoomExit {
    fn clone(&self) -> (r: RoomExit)
        ensures
            r@ == self@,
    {
        RoomExit {
            name: self.name.clone(),
            target: self.target.clone(),
            fragment: self.fragment.clone(),
        }
    }
}

/// What the exits of a vector hold.
pub open spec fn exit_views(exits: Seq<RoomExit>) -> Seq<ExitView> {
    exits.map_values(|exit: RoomExit| exit@)
}

pub fn copy_exits(exits: &Vec<RoomExit>) -> (r: Vec<RoomExit>)
    ensures
        exit_views(r@) == exit_views(exits@),
{
    let mut out: Vec<RoomExit> = Vec::new();
    let mut i: usize = 0;
    while i < exits.len()
        invariant
            i <= exits@.len(),
            exit_views(out@) =~= exit_views(exits@).take(i as int),
        decreases exits@.len() - i,
    {
        let ghost before = exit_views(out@);
        out.push(exits[i].clone());
        assert(exit_views(out@) =~= before.push(exits@[i as int]@));
        i += 1;
    }
    out
}

/// The index of the first exit named `name`, or the number of exits if there is
/// none.
pub open spec fn exit_named(exits: Seq<ExitView>, name: Seq<char>) -> int
    decreases exits.len(),
{
    if exits.len() == 0 || exits[0].name == name {
        0
    } else {
        1 + exit_named(exits.drop_first(), name)
    }
}

/// Whether one of the exits is named `name`.
pub open spec fn has_exit(exits: Seq<ExitView>, name: Seq<char>) -> bool {
    exists|i: int| 0 <= i < exits.len() && (#[trigger] exits[i]).name == name
}

pub proof fn lemma_exit_named(exits: Seq<ExitView>, name: Seq<char>, n: int)
    requires
        0 <= n <= exits.len(),
        forall|i: int| 0 <= i < n ==> (#[trigger] exits[i]).name != name,
        n < exits.len() ==> exits[n].name == name,
    ensures
        exit_named(exits, name) == n,
    decreases n,
{
    if n > 0 {
        let rest = exits.drop_first();
        assert forall|i: int| 0 <= i < n - 1 implies (#[trigger] rest[i]).name != name by {
            assert(exits[i + 1].name != name);
        }
        lemma_exit_named(rest, name, n - 1);
    }
}

pub proof fn lemma_exit_named_is(exits: Seq<ExitView>, name: Seq<char>)
    ensures
        0 <= exit_named(exits, name) <= exits.len(),
        forall|i: int| 0 <= i < exit_named(exits, name) ==> (#[trigger] exits[i]).name != name,
        exit_named(exits, name) < exits.len() ==> exits[exit_named(exits, name)].name == name,
        has_exit(exits, name) <==> exit_named(exits, name) < exits.len(),
    decreases exits.len(),
{
    if exits.len() > 0 && exits[0].name != name {
        let rest = exits.drop_first();
        lemma_exit_named_is(rest, name);
        assert forall|i: int| 0 <= i < exit_named(exits, name) implies (#[trigger] exits[i]).name
            != name by {
            if i > 0 {
                assert(rest[i - 1].name != name);
            }
        }
        if has_exit(exits, name) {
            let i = choose|i: int| 0 <= i < exits.len() && (#[trigger] exits[i]).name == name;
            assert(rest[i - 1].name == name);
        }
    }
}

/// The exits with one named `name` that leads to `target`: the one that there
/// is, pointed anew, or a new one with the address `fragment`.
pub open spec fn with_exit(
    exits: Seq<ExitView>,
    name: Seq<char>,
    target: Seq<char>,
    fragment: Seq<char>,
) -> Seq<ExitView> {
    let i = exit_named(exits, name);
    if i < exits.len() {
        exits.update(i, ExitView { target, ..exits[i] })
    } else {
        exits.push(ExitView { name, target, fragment })
    }
}

/// The exits with another name than `name`.
pub open spec fn without_exit(exits: Seq<ExitView>, name: Seq<char>) -> Seq<ExitView>
    decreases exits.len(),
{
    if exits.len() == 0 {
        Seq::empty()
    } else if exits.last().name == name {
        without_exit(exits.drop_last(), name)
    } else {
        without_exit(exits.drop_last(), name).push(exits.last())
    }
}

// ---- rooms ----

/// Durable per-room state persisted in the root manifest: the room's
/// identity, props, exits, and IRC binding. Transient state (presence, active
/// IRC sessions, channel occupants) is deliberately excluded.
#[derive(Debug)]
pub struct RoomManifest {
    pub fragment: String,
    pub label: String,
    pub props: StringMap<String>,
    pub exits: Vec<RoomExit>,
    pub irc: Option<IrcBinding>,
}

/// What a `RoomManifest` holds.
#[verifier::ext_equal]
pub struct ManifestView {
    pub fragment: Seq<char>,
    pub label: Seq<char>,
    pub props: Map<Seq<char>, Seq<char>>,
    pub exits: Seq<ExitView>,
    pub irc: Option<BindingView>,
}

/// The binding that an option holds.
pub open spec fn bound(irc: Option<IrcBinding>) -> Option<BindingView> {
    match irc {
        Some(binding) => Some(binding@),
        None => None,
    }
}

pub fn copy_binding(irc: &Option<IrcBinding>) -> (r: Option<IrcBinding>)
    ensures
        bound(r) == bound(*irc),
{
    match irc {
        Some(binding) => Some(binding.clone()),
        None => None,
    }
}

impl View for RoomManifest {
    type V = ManifestView;

    open spec fn view(&self) -> ManifestView {
        ManifestView {
            fragment: self.fragment@,
            label: self.label@,
            props: self.props@,
            exits: exit_views(self.exits@),
            irc: bound(self.irc),
        }
    }
}

impl Clone for RoomManifest {
    fn clone(&self) -> (r: RoomManifest)
        ensures
            r@ == self@,
    {
        RoomManifest {
            fragment: self.fragment.clone(),
            label: self.label.clone(),
            props: self.props.copy(),
            exits: copy_exits(&self.exits),
            irc: copy_binding(&self.irc),
        }
    }
}

/// What a room shows of itself.
#[derive(Debug)]
pub struct RoomCtxView<'a> {
    pub name: String,
    pub description: String,
    pub exits: &'a [RoomExit],
    pub irc: Option<&'a IrcBinding>,
}

/// A room and everything in it.
#[derive(Debug)]
pub struct RoomActor {
    pub fragment: String,
    /// Addressable label used for resolution (`#concourse`, plain room names).
    pub label: String,
    /// Authoritative prop store: `name`, `description`, `owner`, `locked`, …
    pub props: StringMap<String>,
    pub exits: Vec<RoomExit>,
    pub irc: Option<IrcBinding>,
    /// Whether the room's channel is activated: occupants joining the room
    /// join the channel as themselves.
    pub irc_active: bool,
    /// Trusted occupants (`did` -> channel nick) currently connected to the
    /// room's channel. These are the ma actors already present in the room.
    pub irc_mirrors: StringMap<String>,
    /// Untrusted IRC users on the channel, keyed by lowercased nick:
    /// lowercased nick -> display nick. A plain room-held list, kept current
    /// by channel JOIN/PART/QUIT/NICK events and periodic NAMES resyncs.
    pub irc_occupants: StringMap<String>,
    pub policy: ChannelEntryPolicy,
    pub presence: StringMap<PresenceRecord>,
}

/// What a `RoomActor` holds.
#[verifier::ext_equal]
pub struct RoomView {
    pub fragment: Seq<char>,
    pub label: Seq<char>,
    pub props: Map<Seq<char>, Seq<char>>,
    pub exits: Seq<ExitView>,
    pub irc: Option<BindingView>,
    pub irc_active: bool,
    pub irc_mirrors: Map<Seq<char>, Seq<char>>,
    pub irc_occupants: Map<Seq<char>, Seq<char>>,
    pub policy: PolicyView,
    pub presence: Map<Seq<char>, PresenceView>,
}

impl View for RoomActor {
    type V = RoomView;

    open spec fn view(&self) -> RoomView {
        RoomView {
            fragment: self.fragment@,
            label: self.label@,
            props: self.props@,
            exits: exit_views(self.exits@),
            irc: bound(self.irc),
            irc_active: self.irc_active,
            irc_mirrors: self.irc_mirrors@,
            irc_occupants: self.irc_occupants@,
            policy: self.policy@,
            presence: self.presence@,
        }
    }
}

/// A room with no exits, no binding and nobody in it.
pub open spec fn bare_room(
    fragment: Seq<char>,
    label: Seq<char>,
    props: Map<Seq<char>, Seq<char>>,
    policy: PolicyView,
) -> RoomView {
    RoomView {
        fragment,
        label,
        props,
        exits: Seq::empty(),
        irc: None,
        irc_active: false,
        irc_mirrors: Map::empty(),
        irc_occupants: Map::empty(),
        policy,
        presence: Map::empty(),
    }
}

/// The props that every new room has.
pub open spec fn first_props(name: Seq<char>, description: Seq<char>) -> Map<Seq<char>, Seq<char>> {
    Map::empty().insert("name"@, name).insert("description"@, description).insert(
        "locked"@,
        Seq::empty(),
    )
}

/// The room that a `dig` creates.
pub open spec fn dug_room(
    fragment: Seq<char>,
    spec_: SpecView,
    owner: Option<Seq<char>>,
    policy: PolicyView,
) -> RoomView {
    let props = first_props(spec_.label, spec_.description);
    bare_room(
        fragment,
        spec_.label,
        match owner {
            Some(owner) => props.insert("owner"@, owner),
            None => props,
        },
        policy,
    )
}

/// The room that a manifest restores.
pub open spec fn restored_room(manifest: ManifestView) -> RoomView {
    RoomView {
        exits: manifest.exits,
        irc: manifest.irc,
        ..bare_room(manifest.fragment, manifest.label, manifest.props, policy_for_all(true))
    }
}

/// The durable part of a room.
pub open spec fn durable(room: RoomView) -> ManifestView {
    ManifestView {
        fragment: room.fragment,
        label: room.label,
        props: room.props,
        exits: room.exits,
        irc: room.irc,
    }
}

/// The value of a prop, or `default` if it is not set.
pub open spec fn prop_or(room: RoomView, key: Seq<char>, default: Seq<char>) -> Seq<char> {
    if room.props.contains_key(key) {
        room.props[key]
    } else {
        default
    }
}

/// The value of a prop, if it is set.
pub open spec fn prop(room: RoomView, key: Seq<char>) -> Option<Seq<char>> {
    if room.props.contains_key(key) {
        Some(room.props[key])
    } else {
        None
    }
}

pub open spec fn room_name(room: RoomView) -> Seq<char> {
    prop_or(room, "name"@, room.label)
}

pub open spec fn room_description(room: RoomView) -> Seq<char> {
    prop_or(room, "description"@, Seq::empty())
}

pub open spec fn room_owner(room: RoomView) -> Option<Seq<char>> {
    prop(room, "owner"@)
}

pub open spec fn lock_secret(room: RoomView) -> Seq<char> {
    prop_or(room, "locked"@, Seq::empty())
}

pub open spec fn locked(room: RoomView) -> bool {
    lock_secret(room).len() > 0
}

/// A room with a prop set; an empty value takes the prop away.
pub open spec fn with_prop(room: RoomView, key: Seq<char>, value: Seq<char>) -> RoomView {
    RoomView {
        props: if value.len() == 0 {
            room.props.remove(key)
        } else {
            room.props.insert(key, value)
        },
        ..room
    }
}

/// Why `did` cannot enter the room, if it cannot.
pub open spec fn entry_refusal(room: RoomView, did: Seq<char>) -> Option<Seq<char>> {
    if locked(room) {
        Some("room is locked"@)
    } else if !admits(room.policy, did) {
        Some("entry denied by channel policy"@)
    } else {
        None
    }
}

/// The room with `did` in it.
pub open spec fn entered(room: RoomView, did: Seq<char>, ctx: Seq<char>) -> RoomView {
    RoomView { presence: room.presence.insert(did, PresenceView { did, ctx }), ..room }
}

/// The room without `did`.
pub open spec fn left(room: RoomView, did: Seq<char>) -> RoomView {
    RoomView { presence: room.presence.remove(did), ..room }
}

/// The room with its channel switched off.
pub open spec fn deactivated(room: RoomView) -> RoomView {
    RoomView {
        irc_active: false,
        irc_mirrors: Map::empty(),
        irc_occupants: Map::empty(),
        ..room
    }
}

/// The room's binding, if its channel is switched on and can be joined.
pub open spec fn joinable(room: RoomView) -> Option<BindingView> {
    match room.irc {
        Some(binding) => if room.irc_active && join_refusal(binding) is None {
            Some(binding)
        } else {
            None
        },
        None => None,
    }
}

/// The room with `did` on the channel as `nick`.
pub open spec fn mirrored(room: RoomView, did: Seq<char>, nick: Seq<char>) -> RoomView {
    RoomView { irc_mirrors: room.irc_mirrors.insert(did, nick), ..room }
}

/// The room with `did` off the channel.
pub open spec fn unmirrored(room: RoomView, did: Seq<char>) -> RoomView {
    RoomView { irc_mirrors: room.irc_mirrors.remove(did), ..room }
}

/// Whether `did` is on the channel under `nick`, but for its case.
pub open spec fn mirror_is(room: RoomView, did: Seq<char>, nick: Seq<char>) -> bool {
    room.irc_mirrors.contains_key(did) && same_ignoring_case(room.irc_mirrors[did], nick)
}

/// Whether `nick` belongs to one of the room's own occupants.
pub open spec fn is_mirror_nick(room: RoomView, nick: Seq<char>) -> bool {
    exists|did: Seq<char>| #[trigger] mirror_is(room, did, nick)
}

/// The room after `nick` was seen to join the channel.
pub open spec fn seen_joining(room: RoomView, nick: Seq<char>) -> RoomView {
    if is_mirror_nick(room, nick) {
        room
    } else {
        RoomView { irc_occupants: room.irc_occupants.insert(lower(nick), nick), ..room }
    }
}

/// Whether `nick` is listed as an IRC-only user.
pub open spec fn is_fake(room: RoomView, nick: Seq<char>) -> bool {
    room.irc_occupants.contains_key(lower(nick))
}

/// The room without the IRC-only user `nick`.
pub open spec fn fake_gone(room: RoomView, nick: Seq<char>) -> RoomView {
    RoomView { irc_occupants: room.irc_occupants.remove(lower(nick)), ..room }
}

/// The IRC-only users of a channel listing, by their lowercase nicks; of two
/// with the same lowercase nick the later one counts.
pub open spec fn listed_fakes(room: RoomView, listed: Seq<Seq<char>>) -> Map<
    Seq<char>,
    Seq<char>,
>
    decreases listed.len(),
{
    if listed.len() == 0 {
        Map::empty()
    } else {
        let before = listed_fakes(room, listed.drop_last());
        if is_mirror_nick(room, listed.last()) {
            before
        } else {
            before.insert(lower(listed.last()), listed.last())
        }
    }
}

/// The room whose IRC-only users are those of a listing. Who was known keeps
/// the nick under which it was known.
pub open spec fn synced(room: RoomView, listed: Seq<Seq<char>>) -> RoomView {
    let target = listed_fakes(room, listed);
    RoomView {
        irc_occupants: Map::new(
            |k: Seq<char>| target.contains_key(k),
            |k: Seq<char>|
                if room.irc_occupants.contains_key(k) {
                    room.irc_occupants[k]
                } else {
                    target[k]
                },
        ),
        ..room
    }
}

impl RoomActor {
    pub fn new(fragment: &str, label: &str, policy: ChannelEntryPolicy) -> (r: RoomActor)
        ensures
            r@ == bare_room(fragment@, label@, first_props(label@, Seq::empty()), policy@),
    {
        let mut props: StringMap<String> = StringMap::new();
        let _ = props.insert("name".to_owned(), label.to_owned());
        let _ = props.insert("description".to_owned(), String::new());
        let _ = props.insert("locked".to_owned(), String::new());
        let room = RoomActor {
            fragment: fragment.to_owned(),
            label: label.to_owned(),
            props,
            exits: Vec::new(),
            irc: None,
            irc_active: false,
            irc_mirrors: StringMap::new(),
            irc_occupants: StringMap::new(),
            policy,
            presence: StringMap::new(),
        };
        assert(room@.exits =~= Seq::<ExitView>::empty());
        room
    }

    pub fn from_spec(
        fragment: String,
        spec_: RoomSpec,
        owner: Option<String>,
        policy: ChannelEntryPolicy,
    ) -> (r: RoomActor)
        ensures
            r@ == dug_room(
                fragment@,
                spec_@,
                match owner {
                    Some(owner) => Some(owner@),
                    None => None,
                },
                policy@,
            ),
    {
        let mut props: StringMap<String> = StringMap::new();
        let _ = props.insert("name".to_owned(), spec_.label.clone());
        let _ = props.insert("description".to_owned(), spec_.description);
        let _ = props.insert("locked".to_owned(), String::new());
        if let Some(owner) = owner {
            let _ = props.insert("owner".to_owned(), owner);
        }
        let room = RoomActor {
            fragment,
            label: spec_.label,
            props,
            exits: Vec::new(),
            irc: None,
            irc_active: false,
            irc_mirrors: StringMap::new(),
            irc_occupants: StringMap::new(),
            policy,
            presence: StringMap::new(),
        };
        assert(room@.exits =~= Seq::<ExitView>::empty());
        room
    }

    pub fn from_manifest(manifest: RoomManifest) -> (r: RoomActor)
        ensures
            r@ == restored_room(manifest@),
    {
        RoomActor {
            fragment: manifest.fragment,
            label: manifest.label,
            props: manifest.props,
            exits: manifest.exits,
            irc: manifest.irc,
            irc_active: false,
            irc_mirrors: StringMap::new(),
            irc_occupants: StringMap::new(),
            policy: ChannelEntryPolicy::open(),
            presence: StringMap::new(),
        }
    }

    /// The durable part of the room.
    pub fn to_manifest(&self) -> (r: RoomManifest)
        ensures
            r@ == durable(self@),
    {
        RoomManifest {
            fragment: self.fragment.clone(),
            label: self.label.clone(),
            props: self.props.copy(),
            exits: copy_exits(&self.exits),
            irc: copy_binding(&self.irc),
        }
    }

    pub fn name(&self) -> (r: &str)
        ensures
            r@ == room_name(self@),
    {
        match self.props.get("name") {
            Some(name) => name.as_str(),
            None => self.label.as_str(),
        }
    }

    pub fn description(&self) -> (r: &str)
        ensures
            r@ == room_description(self@),
    {
        match self.props.get("description") {
            Some(description) => description.as_str(),
            None => no_text(),
        }
    }

    pub fn owner(&self) -> (r: Option<&str>)
        ensures
            lent(r) == room_owner(self@),
    {
        self.get_prop("owner")
    }

    pub fn set_owner(&mut self, owner: Option<&str>)
        ensures
            final(self)@ == with_prop(
                old(self)@,
                "owner"@,
                match owner {
                    Some(owner) => owner@,
                    None => Seq::empty(),
                },
            ),
    {
        match owner {
            Some(owner) => {
                self.set_prop("owner", owner);
            },
            None => {
                let _ = self.props.remove("owner");
            },
        }
    }

    pub fn get_prop(&self, key: &str) -> (r: Option<&str>)
        ensures
            lent(r) == prop(self@, key@),
    {
        match self.props.get(key) {
            Some(value) => Some(value.as_str()),
            None => None,
        }
    }

    pub fn set_prop(&mut self, key: &str, value: &str)
        ensures
            final(self)@ == with_prop(old(self)@, key@, value@),
    {
        if value.is_empty() {
            let _ = self.props.remove(key);
        } else {
            let _ = self.props.insert(key.to_owned(), value.to_owned());
        }
    }

    /// The stored lock secret; an empty value means the room is unlocked.
    pub fn locked_secret(&self) -> (r: &str)
        ensures
            r@ == lock_secret(self@),
    {
        match self.get_prop("locked") {
            Some(secret) => secret,
            None => no_text(),
        }
    }

    pub fn is_locked(&self) -> (r: bool)
        ensures
            r == locked(self@),
    {
        !self.locked_secret().is_empty()
    }

    pub fn unlock(&mut self)
        ensures
            final(self)@ == with_prop(old(self)@, "locked"@, Seq::empty()),
    {
        self.set_prop("locked", no_text());
    }

    pub fn set_description(&mut self, description: String)
        ensures
            final(self)@ == with_prop(old(self)@, "description"@, description@),
    {
        self.set_prop("description", description.as_str());
    }

    fn find_exit_named(&self, name: &str) -> (r: usize)
        ensures
            r == exit_named(self@.exits, name@),
            r <= self.exits@.len(),
    {
        let mut i: usize = 0;
        while i < self.exits.len() && !same_text(self.exits[i].name.as_str(), name)
            invariant
                i <= self.exits@.len(),
                forall|j: int| 0 <= j < i ==> (#[trigger] self@.exits[j]).name != name@,
            decreases self.exits@.len() - i,
        {
            i += 1;
        }
        proof {
            lemma_exit_named(self@.exits, name@, i as int);
        }
        i
    }

    /// Whether one of the exits is named `name`.
    pub fn has_exit_named(&self, name: &str) -> (r: bool)
        ensures
            r == has_exit(self@.exits, name@),
    {
        proof {
            lemma_exit_named_is(self@.exits, name@);
        }
        self.find_exit_named(name) < self.exits.len()
    }

    /// Ensure an exit named `name` leads to `target`. Idempotent: if an exit
    /// with that name already exists it is re-pointed at the new target,
    /// keeping its addressable `fragment` stable for clients that already
    /// hold it; otherwise a fresh exit is created.
    pub fn add_exit(&mut self, name: &str, target: &str) -> (r: Result<(), Error>)
        ensures
            r is Ok,
            exists|fragment: Seq<char>|
                is_exit_fragment(fragment) && final(self)@ == (RoomView {
                    exits: #[trigger] with_exit(old(self)@.exits, name@, target@, fragment),
                    ..old(self)@
                }),
    {
        let fragment = draw_exit_fragment();
        self.add_exit_at(name, target, fragment);
        Ok(())
    }

    /// As `add_exit`, with the address of a fresh exit given.
    pub fn add_exit_at(&mut self, name: &str, target: &str, fragment: String)
        ensures
            final(self)@ == (RoomView {
                exits: with_exit(old(self)@.exits, name@, target@, fragment@),
                ..old(self)@
            }),
    {
        let i = self.find_exit_named(name);
        let ghost before = self@.exits;
        if i < self.exits.len() {
            self.exits[i].target = target.to_owned();
            assert(self@.exits =~= with_exit(before, name@, target@, fragment@));
        } else {
            let ghost address = fragment@;
            self.exits.push(RoomExit { fragment, name: name.to_owned(), target: target.to_owned() });
            assert(self@.exits =~= with_exit(before, name@, target@, address));
        }
    }

    pub fn remove_exit(&mut self, name: &str) -> (r: Result<(), Error>)
        ensures
            final(self)@ == (RoomView {
                exits: without_exit(old(self)@.exits, name@),
                ..old(self)@
            }),
            match r {
                Ok(_) => has_exit(old(self)@.exits, name@),
                Err(error) => {
                    &&& !has_exit(old(self)@.exits, name@)
                    &&& error@ == "exit not found"@
                    &&& final(self)@ == old(self)@
                },
            },
    {
        let ghost all = self@.exits;
        let mut kept: Vec<RoomExit> = Vec::new();
        let mut found = false;
        let mut i: usize = 0;
        assert(all.take(0) =~= Seq::<ExitView>::empty());
        while i < self.exits.len()
            invariant
                i <= self.exits@.len(),
                all == self@.exits,
                exit_views(kept@) =~= without_exit(all.take(i as int), name@),
                found ==> has_exit(all, name@),
                !found ==> exit_views(kept@) =~= all.take(i as int),
                !found ==> forall|j: int| 0 <= j < i ==> (#[trigger] all[j]).name != name@,
            decreases self.exits@.len() - i,
        {
            proof {
                assert(all.take(i + 1).drop_last() =~= all.take(i as int));
                assert(all.take(i + 1).last() == all[i as int]);
            }
            if same_text(self.exits[i].name.as_str(), name) {
                assert(all[i as int].name == name@);
                found = true;
            } else {
                let ghost before = exit_views(kept@);
                kept.push(self.exits[i].clone());
                assert(exit_views(kept@) =~= before.push(all[i as int]));
            }
            i += 1;
        }
        assert(all.take(i as int) =~= all);
        self.exits = kept;
        if found {
            Ok(())
        } else {
            Err(Error::of("exit not found"))
        }
    }

    /// The room's binding, to be configured; one with nothing set if the room
    /// had none.
    pub fn irc_config_mut(&mut self) -> (r: &mut IrcBinding)
        ensures
            (*r)@ == (match old(self)@.irc {
                Some(binding) => binding,
                None => unbound(),
            }),
            final(self)@ == (RoomView { irc: Some((*final(r))@), ..old(self)@ }),
    {
        if self.irc.is_none() {
            self.irc = Some(IrcBinding::default());
        }
        match &mut self.irc {
            Some(binding) => binding,
            None => vstd::pervasive::unreached(),
        }
    }

    pub fn ctx_view(&self) -> (r: RoomCtxView<'_>)
        ensures
            r.name@ == room_name(self@),
            r.description@ == room_description(self@),
            exit_views(r.exits@) == self@.exits,
            match r.irc {
                Some(binding) => self@.irc == Some(binding@),
                None => self@.irc is None,
            },
    {
        RoomCtxView {
            name: self.name().to_owned(),
            description: self.description().to_owned(),
            exits: self.exits.as_slice(),
            irc: match &self.irc {
                Some(binding) => Some(binding),
                None => None,
            },
        }
    }

    pub fn enter(&mut self, did: &str, ctx: &str) -> (r: Result<(), Error>)
        ensures
            match r {
                Ok(_) => {
                    &&& entry_refusal(old(self)@, did@) is None
                    &&& final(self)@ == entered(old(self)@, did@, ctx@)
                },
                Err(error) => {
                    &&& entry_refusal(old(self)@, did@) == Some(error@)
                    &&& final(self)@ == old(self)@
                },
            },
    {
        if self.is_locked() {
            return Err(Error::of("room is locked"));
        }
        if !self.policy.can_enter(did) {
            return Err(Error::of("entry denied by channel policy"));
        }
        let _ = self.presence.insert(
            did.to_owned(),
            PresenceRecord { did: did.to_owned(), ctx: ctx.to_owned() },
        );
        Ok(())
    }

    pub fn leave(&mut self, did: &str)
        ensures
            final(self)@ == left(old(self)@, did@),
    {
        let _ = self.presence.remove(did);
    }

    fn require_present(&self, did: &str) -> (r: Result<(), Error>)
        ensures
            match r {
                Ok(_) => self@.presence.contains_key(did@),
                Err(error) => !self@.presence.contains_key(did@) && error@
                    == "sender is not in the room"@,
            },
    {
        if !self.presence.contains_key(did) {
            return Err(Error::of("sender is not in the room"));
        }
        Ok(())
    }

    pub fn say(&self, did: &str) -> (r: Result<(), Error>)
        ensures
            match r {
                Ok(_) => self@.presence.contains_key(did@),
                Err(error) => !self@.presence.contains_key(did@) && error@
                    == "sender is not in the room"@,
            },
    {
        self.require_present(did)
    }

    pub fn emote(&self, did: &str) -> (r: Result<(), Error>)
        ensures
            match r {
                Ok(_) => self@.presence.contains_key(did@),
                Err(error) => !self@.presence.contains_key(did@) && error@
                    == "sender is not in the room"@,
            },
    {
        self.require_present(did)
    }

    /// Every occupant.
    pub fn presence_list(&self) -> (r: Vec<PresenceRecord>)
        ensures
            lists_presence(presence_views(r@), self@.presence),
    {
        let n = self.presence.len();
        let ghost keys = self.presence.order();
        let ghost all = keys.map_values(|k: Seq<char>| self@.presence[k]);
        let mut out: Vec<PresenceRecord> = Vec::new();
        let mut i: usize = 0;
        while i < n
            invariant
                i <= n,
                n == keys.len(),
                keys == self.presence.order(),
                all == keys.map_values(|k: Seq<char>| self@.presence[k]),
                presence_views(out@) =~= all.take(i as int),
            decreases n - i,
        {
            let ghost before = presence_views(out@);
            out.push(self.presence.value_at(i).clone());
            assert(presence_views(out@) =~= before.push(all[i as int]));
            i += 1;
        }
        assert(presence_views(out@) =~= all);
        assert(lists_keys(keys, self@.presence));
        out
    }

    /// Drop all channel state; the room keeps its binding configuration and
    /// can be re-joined later.
    pub fn deactivate_irc(&mut self)
        ensures
            final(self)@ == deactivated(old(self)@),
    {
        self.irc_active = false;
        self.irc_mirrors.clear();
        self.irc_occupants.clear();
    }

    /// The room's binding, only while the channel is activated and joinable.
    pub fn joinable_binding(&self) -> (r: Option<&IrcBinding>)
        ensures
            match r {
                Some(binding) => joinable(self@) == Some(binding@),
                None => joinable(self@) is None,
            },
    {
        if !self.irc_active {
            return None;
        }
        match &self.irc {
            Some(binding) => match binding.validate_for_join() {
                Ok(_) => Some(binding),
                Err(_) => None,
            },
            None => None,
        }
    }

    pub fn register_irc_mirror(&mut self, did: &str, nick: String)
        ensures
            final(self)@ == mirrored(old(self)@, did@, nick@),
    {
        let _ = self.irc_mirrors.insert(did.to_owned(), nick);
    }

    pub fn unregister_irc_mirror(&mut self, did: &str)
        ensures
            final(self)@ == unmirrored(old(self)@, did@),
    {
        let _ = self.irc_mirrors.remove(did);
    }

    pub fn irc_mirror_nick(&self, did: &str) -> (r: Option<&str>)
        ensures
            match r {
                Some(nick) => self@.irc_mirrors.contains_key(did@) && nick@
                    == self@.irc_mirrors[did@],
                None => !self@.irc_mirrors.contains_key(did@),
            },
    {
        match self.irc_mirrors.get(did) {
            Some(nick) => Some(nick.as_str()),
            None => None,
        }
    }

    pub fn irc_has_mirror(&self, did: &str) -> (r: bool)
        ensures
            r == self@.irc_mirrors.contains_key(did@),
    {
        self.irc_mirrors.contains_key(did)
    }

    fn mirror_did_for_nick(&self, nick: &str) -> (r: Option<String>)
        ensures
            match r {
                Some(did) => mirror_is(self@, did@, nick@),
                None => !is_mirror_nick(self@, nick@),
            },
    {
        let n = self.irc_mirrors.len();
        let ghost order = self.irc_mirrors.order();
        let mut i: usize = 0;
        while i < n
            invariant
                i <= n,
                n == order.len(),
                order == self.irc_mirrors.order(),
                forall|j: int| 0 <= j < i ==> !mirror_is(self@, #[trigger] order[j], nick@),
            decreases n - i,
        {
            if eq_ignoring_case(self.irc_mirrors.value_at(i).as_str(), nick) {
                return Some(self.irc_mirrors.key_at(i).clone());
            }
            i += 1;
        }
        proof {
            assert forall|did: Seq<char>| !#[trigger] mirror_is(self@, did, nick@) by {
                if self@.irc_mirrors.contains_key(did) {
                    assert(order.contains(did));
                    let j = order.index_of(did);
                    assert(!mirror_is(self@, order[j], nick@));
                }
            }
        }
        None
    }

    pub fn nick_is_irc_mirror(&self, nick: &str) -> (r: bool)
        ensures
            r == is_mirror_nick(self@, nick@),
    {
        match self.mirror_did_for_nick(nick) {
            Some(_) => true,
            None => false,
        }
    }

    /// Track an observed channel JOIN. Returns `true` when a new *fake*
    /// occupant was added (the bridge broadcasts an arrival). Mirror joins
    /// are already present as trusted occupants and never become fakes.
    pub fn observe_irc_join(&mut self, nick: &str) -> (r: bool)
        ensures
            final(self)@ == seen_joining(old(self)@, nick@),
            r == (!is_mirror_nick(old(self)@, nick@) && !is_fake(old(self)@, nick@)),
    {
        if self.nick_is_irc_mirror(nick) {
            return false;
        }
        let before = self.irc_occupants.insert(lowered(nick), nick.to_owned());
        before.is_none()
    }

    /// Track an observed PART/QUIT. Returns `true` when a *fake* occupant was
    /// removed (the bridge broadcasts a departure). A mirror nick that left
    /// is dropped silently — the trusted presence outlives the session.
    pub fn observe_irc_part(&mut self, nick: &str) -> (r: bool)
        ensures
            is_mirror_nick(old(self)@, nick@) ==> !r && exists|did: Seq<char>| #[trigger]
                mirror_is(old(self)@, did, nick@) && final(self)@ == unmirrored(old(self)@, did),
            !is_mirror_nick(old(self)@, nick@) ==> r == is_fake(old(self)@, nick@) && final(self)@
                == fake_gone(old(self)@, nick@),
    {
        if let Some(did) = self.mirror_did_for_nick(nick) {
            let _ = self.irc_mirrors.remove(did.as_str());
            return false;
        }
        let gone = self.irc_occupants.remove(lowered(nick).as_str());
        gone.is_some()
    }

    /// Track an observed NICK change. Returns `(fake_left, fake_arrived)` so
    /// the bridge can broadcast both transitions for a renamed fake.
    pub fn observe_irc_rename(&mut self, old_nick: &str, new_nick: &str) -> (r: (bool, bool))
        ensures
            is_mirror_nick(old(self)@, old_nick@) ==> r == (false, false) && exists|did: Seq<char>|
                #[trigger] mirror_is(old(self)@, did, old_nick@) && final(self)@ == mirrored(
                    old(self)@,
                    did,
                    new_nick@,
                ),
            !is_mirror_nick(old(self)@, old_nick@) ==> {
                let gone = fake_gone(old(self)@, old_nick@);
                if !is_fake(old(self)@, old_nick@) {
                    r == (false, false) && final(self)@ == old(self)@
                } else if is_mirror_nick(old(self)@, new_nick@) {
                    r == (true, false) && final(self)@ == gone
                } else {
                    r == (true, !is_fake(gone, new_nick@)) && final(self)@ == seen_joining(
                        gone,
                        new_nick@,
                    )
                }
            },
    {
        if let Some(did) = self.mirror_did_for_nick(old_nick) {
            let ghost whose = did@;
            if let Some(_) = self.irc_mirrors.remove(did.as_str()) {
                let _ = self.irc_mirrors.insert(did, new_nick.to_owned());
            }
            assert(self@.irc_mirrors =~= old(self)@.irc_mirrors.insert(whose, new_nick@));
            assert(self@ =~= mirrored(old(self)@, whose, new_nick@));
            return (false, false);
        }
        let fake_left = self.irc_occupants.remove(lowered(old_nick).as_str()).is_some();
        proof {
            if !fake_left {
                assert(self@.irc_occupants =~= old(self)@.irc_occupants);
            }
            assert(forall|did: Seq<char>|
                mirror_is(self@, did, new_nick@) == mirror_is(old(self)@, did, new_nick@));
        }
        let fake_arrived = if fake_left && !self.nick_is_irc_mirror(new_nick) {
            let before = self.irc_occupants.insert(lowered(new_nick), new_nick.to_owned());
            before.is_none()
        } else {
            false
        };
        (fake_left, fake_arrived)
    }

    /// Reconcile the fake list against an authoritative channel listing
    /// (`353`/`366`). Mirror nicks are preserved. Fakes are added/removed
    /// silently — this is the periodic resync, not a join/leave event.
    pub fn sync_irc_occupants(&mut self, listed: &[String])
        ensures
            final(self)@ == synced(old(self)@, texts(listed@)),
    {
        let ghost room = self@;
        let ghost all = texts(listed@);
        let mut target: StringMap<String> = StringMap::new();
        let mut i: usize = 0;
        assert(all.take(0) =~= Seq::<Seq<char>>::empty());
        while i < listed.len()
            invariant
                i <= listed@.len(),
                all == texts(listed@),
                self@ == room,
                target@ == listed_fakes(room, all.take(i as int)),
            decreases listed@.len() - i,
        {
            proof {
                assert(all.take(i + 1).drop_last() =~= all.take(i as int));
                assert(all.take(i + 1).last() == listed@[i as int]@);
            }
            let nick = listed[i].as_str();
            if !self.nick_is_irc_mirror(nick) {
                let _ = target.insert(lowered(nick), nick.to_owned());
            }
            i += 1;
        }
        assert(all.take(i as int) =~= all);
        // The listing decides who is there; who was known keeps the nick.
        let ghost wanted = target@;
        let n = target.len();
        let ghost order = target.order();
        let mut k: usize = 0;
        let mut kept: StringMap<String> = StringMap::new();
        while k < n
            invariant
                k <= n,
                n == order.len(),
                order == target.order(),
                lists_keys(order, target@),
                target@ == wanted,
                self@ == room,
                forall|key: Seq<char>|
                    #![trigger kept@.contains_key(key)]
                    kept@.contains_key(key) <==> order.take(k as int).contains(key),
                forall|key: Seq<char>|
                    #[trigger] kept@.contains_key(key) ==> kept@[key] == synced(room, all).irc_occupants[key],
                wanted == listed_fakes(room, all),
            decreases n - k,
        {
            let ghost seen = order.take(k as int);
            let ghost next = order.take(k + 1);
            let key = target.key_at(k).clone();
            let nick = match self.irc_occupants.get(key.as_str()) {
                Some(known) => known.clone(),
                None => target.value_at(k).clone(),
            };
            let ghost at = key@;
            let _ = kept.insert(key, nick);
            proof {
                assert(next =~= seen.push(at));
                assert(next[k as int] == at);
                assert forall|x: Seq<char>| seen.contains(x) implies next.contains(x) by {
                    assert(next[seen.index_of(x)] == x);
                }
            }
            k += 1;
        }
        self.irc_occupants = kept;
        proof {
            assert(order.take(n as int) =~= order);
            assert(self@.irc_occupants =~= synced(room, all).irc_occupants);
        }
    }

    pub fn irc_occupant_nicks(&self) -> (r: Vec<String>)
        ensures
            texts(r@) == sorted_values(self@.irc_occupants),
            lists_values(texts(r@), self@.irc_occupants),
    {
        let nicks = sorted_map_values(&self.irc_occupants);
        nicks
    }
}

/// The values of a map in lexicographic order.
pub fn sorted_map_values(map: &StringMap<String>) -> (r: Vec<String>)
    ensures
        texts(r@) == sorted_values(map@),
        lists_values(texts(r@), map@),
{
    let n = map.len();
    let ghost keys = map.order();
    let ghost all = keys.map_values(|k: Seq<char>| map@[k]);
    let mut out: Vec<String> = Vec::new();
    let mut i: usize = 0;
    while i < n
        invariant
            i <= n,
            n == keys.len(),
            keys == map.order(),
            all == keys.map_values(|k: Seq<char>| map@[k]),
            texts(out@) =~= all.take(i as int),
        decreases n - i,
    {
        let ghost before = texts(out@);
        out.push(map.value_at(i).clone());
        assert(texts(out@) =~= before.push(all[i as int]));
        i += 1;
    }
    assert(texts(out@) =~= all);
    let r = sort_texts(out);
    proof {
        assert forall|x: Seq<char>| #[trigger] texts(r@).to_multiset().count(x) == keys_of(
            map@,
            x,
        ).len() by {
            lemma_walk_counts(keys, map@, x);
        }
        lemma_sorted_values(map@, texts(r@));
    }
    r
}

} // verus!
