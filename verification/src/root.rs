//! The root: the rooms of the runtime, their labels, and who owns the runtime.

use vstd::prelude::*;
use vstd::string::*;

use crate::channel::endpoint::IrcBinding;
use crate::channel::room::{
    joinable, lists_presence, presence_views, ChannelEntryPolicy, PresenceRecord, PresenceView,
    RoomActor,
};
use crate::collections::{held, lists_keys, texts, StringMap, StringSet};
use crate::error::{outcome, Error};
use crate::text::{same_text, starts_with_char};

pub mod command;
pub mod command_laws;
pub mod dig;
pub mod effects;
pub mod laws;
pub mod model;
pub mod report;
pub mod report_laws;

pub use report::{RoomGraphNode, RoomGraphSnapshot, RoomSnapshot, RootManifest};

use model::{
    claim_step, concourse, concourse_room, first_root, resolve, room_key, with_room, DigView,
    EnterView, RootView, TraverseView,
};

verus! {

pub const CONCOURSE_ROOM: &'static str = "#concourse";

/// What entering a room comes to.
#[derive(Debug)]
pub enum EnterResult {
    Joined,
    ConcourseGuide(String),
}

impl View for EnterResult {
    type V = EnterView;

    open spec fn view(&self) -> EnterView {
        match self {
            EnterResult::Joined => EnterView::Joined,
            EnterResult::ConcourseGuide(text) => EnterView::ConcourseGuide(text@),
        }
    }
}

/// The result of a `dig` command: either a room created or entered in this
/// runtime, or a link to an existing room in another runtime.
#[derive(Debug)]
pub enum DigOutcome {
    Local { fragment: String, name: String, description: String },
    Foreign { target: String, label: String },
}

impl View for DigOutcome {
    type V = DigView;

    open spec fn view(&self) -> DigView {
        match self {
            DigOutcome::Local { fragment, name, description } => DigView::Local {
                fragment: fragment@,
                name: name@,
                description: description@,
            },
            DigOutcome::Foreign { target, label } => DigView::Foreign {
                target: target@,
                label: label@,
            },
        }
    }
}

/// Minimal `:traverse` answer — the exit only says where it leads.
#[derive(Debug)]
pub struct TraverseReply {
    pub did: String,
    pub parent: String,
    pub text: String,
    pub exit: String,
    pub direction: String,
}

impl View for TraverseReply {
    type V = TraverseView;

    open spec fn view(&self) -> TraverseView {
        TraverseView {
            did: self.did@,
            parent: self.parent@,
            text: self.text@,
            exit: self.exit@,
            direction: self.direction@,
        }
    }
}

/// The rooms of a runtime, and who owns it.
#[derive(Debug)]
pub struct RootActor {
    owners: StringSet,
    claimed_by: Option<String>,
    entities: StringMap<RoomActor>,
    labels: StringMap<String>,
}

impl View for RootActor {
    type V = RootView;

    closed spec fn view(&self) -> RootView {
        RootView {
            owners: self.owners@,
            claimed_by: held(self.claimed_by),
            entities: self.entities@,
            labels: self.labels@,
        }
    }
}

fn owner_set(owners: Vec<String>) -> (r: StringSet)
    ensures
        r@ == texts(owners@).to_set(),
{
    let ghost all = texts(owners@);
    let mut set = StringSet::new();
    let mut i: usize = 0;
    assert(all.take(0).to_set() =~= Set::<Seq<char>>::empty());
    while i < owners.len()
        invariant
            i <= owners@.len(),
            all == texts(owners@),
            set@ =~= all.take(i as int).to_set(),
        decreases owners@.len() - i,
    {
        let ghost before = all.take(i as int);
        let ghost next = all.take(i + 1);
        set.insert(owners[i].clone());
        proof {
            assert(next =~= before.push(all[i as int]));
            assert(next[i as int] == all[i as int]);
            assert forall|x: Seq<char>| before.contains(x) implies next.contains(x) by {
                assert(next[before.index_of(x)] == x);
            }
            assert(next.to_set() =~= before.to_set().insert(all[i as int]));
        }
        i += 1;
    }
    assert(all.take(i as int) =~= all);
    set
}

fn new_concourse() -> (r: RoomActor)
    ensures
        r@ == concourse_room(),
{
    RoomActor::new(CONCOURSE_ROOM, CONCOURSE_ROOM, ChannelEntryPolicy::open())
}

impl RootActor {
    pub fn new(owners: Vec<String>) -> (r: RootActor)
        ensures
            r@ == first_root(texts(owners@).to_set()),
    {
        let mut entities: StringMap<RoomActor> = StringMap::new();
        let _ = entities.insert(CONCOURSE_ROOM.to_owned(), new_concourse());
        let mut labels: StringMap<String> = StringMap::new();
        let _ = labels.insert(CONCOURSE_ROOM.to_owned(), CONCOURSE_ROOM.to_owned());
        RootActor { owners: owner_set(owners), claimed_by: None, entities, labels }
    }

    pub fn claim(&mut self, caller: &str) -> (r: Result<(), Error>)
        ensures
            (final(self)@, outcome(r)) == claim_step(old(self)@, caller@),
    {
        if let Some(current) = &self.claimed_by {
            if same_text(current.as_str(), caller) {
                return Ok(());
            }
            return Err(Error::of("#root already claimed by another DID"));
        }
        self.claimed_by = Some(caller.to_owned());
        Ok(())
    }

    pub fn is_owner(&self, did: &str) -> (r: bool)
        ensures
            r == self@.owners.contains(did@),
    {
        self.owners.contains(did)
    }

    /// The owners, each once.
    pub fn owners(&self) -> (r: Vec<String>)
        ensures
            texts(r@).no_duplicates(),
            texts(r@).to_set() == self@.owners,
    {
        self.owners.to_vec()
    }

    fn resolve_entity_fragment(&self, name_or_label: &str) -> (r: Result<String, Error>)
        ensures
            match r {
                Ok(fragment) => resolve(self@, name_or_label@) == Some(fragment@),
                Err(error) => resolve(self@, name_or_label@) is None && error@
                    == "entity not found"@,
            },
    {
        if self.entities.contains_key(name_or_label) {
            return Ok(name_or_label.to_owned());
        }
        if let Some(fragment) = self.labels.get(name_or_label) {
            return Ok(fragment.clone());
        }
        // Labels are stored plain ("lounge"); accept the "#lounge" spelling for
        // command arguments as well.
        if starts_with_char(name_or_label, '#') {
            let n = name_or_label.unicode_len();
            assert(name_or_label@.subrange(1, n as int) =~= name_or_label@.skip(1));
            if let Some(fragment) = self.labels.get(name_or_label.substring_char(1, n)) {
                return Ok(fragment.clone());
            }
        }
        Err(Error::of("entity not found"))
    }

    /// The room named `name`, and the fragment it stands under.
    pub(crate) fn find_room(&self, name: &str) -> (r: Option<(String, &RoomActor)>)
        ensures
            match r {
                Some((fragment, room)) => {
                    &&& room_key(self@, name@) == Some(fragment@)
                    &&& room@ == self@.entities[fragment@]
                },
                None => room_key(self@, name@) is None,
            },
    {
        match self.resolve_entity_fragment(name) {
            Ok(fragment) => match self.entities.get(fragment.as_str()) {
                Some(room) => Some((fragment, room)),
                None => None,
            },
            Err(_) => None,
        }
    }

    /// The order in which the occupants of the room named `name` are walked.
    pub(crate) fn walk(&self, name: &str) -> (r: Ghost<Seq<PresenceView>>)
        ensures
            room_key(self@, name@) is Some ==> lists_presence(
                r@,
                self@.entities[room_key(self@, name@)->0].presence,
            ),
    {
        match self.find_room(name) {
            Some((_, room)) => {
                let _ = room.presence.len();
                let ghost keys = room.presence.order();
                let ghost order = keys.map_values(|k: Seq<char>| room@.presence[k]);
                assert(lists_keys(keys, room@.presence));
                Ghost(order)
            },
            None => Ghost(Seq::empty()),
        }
    }

    pub fn entity_mut(&mut self, name: &str) -> (r: Option<&mut RoomActor>)
        ensures
            match r {
                Some(room) => {
                    &&& room_key(old(self)@, name@) is Some
                    &&& (*room)@ == old(self)@.entities[room_key(old(self)@, name@)->0]
                    &&& final(self)@ == with_room(
                        old(self)@,
                        room_key(old(self)@, name@)->0,
                        (*final(room))@,
                    )
                },
                None => room_key(old(self)@, name@) is None && final(self)@ == old(self)@,
            },
    {
        match self.resolve_entity_fragment(name) {
            Ok(fragment) => self.entities.get_mut(fragment.as_str()),
            Err(_) => None,
        }
    }

    /// The room's activated binding plus every occupant, when the room is
    /// currently bound to its channel.
    pub fn room_irc_joinable(&self, name: &str) -> (r: Option<
        (String, IrcBinding, Vec<PresenceRecord>),
    >)
        ensures
            match r {
                Some((fragment, binding, presence)) => {
                    &&& room_key(self@, name@) == Some(fragment@)
                    &&& joinable(self@.entities[fragment@]) == Some(binding@)
                    &&& lists_presence(
                        presence_views(presence@),
                        self@.entities[fragment@].presence,
                    )
                },
                None => room_key(self@, name@) is None || joinable(
                    self@.entities[room_key(self@, name@)->0],
                ) is None,
            },
    {
        match self.find_room(name) {
            Some((fragment, room)) => match room.joinable_binding() {
                Some(binding) => Some((fragment, binding.clone(), room.presence_list())),
                None => None,
            },
            None => None,
        }
    }

    /// Whether `did` has a live channel session in the room.
    pub fn room_irc_has_mirror(&self, name: &str, did: &str) -> (r: bool)
        ensures
            r == match room_key(self@, name@) {
                Some(f) => self@.entities[f].irc_active && self@.entities[f].irc_mirrors.contains_key(
                    did@,
                ),
                None => false,
            },
    {
        match self.find_room(name) {
            Some((_, room)) => room.irc_active && room.irc_has_mirror(did),
            None => false,
        }
    }

    /// The room's configured channel name, if any.
    pub fn room_irc_channel(&self, name: &str) -> (r: Option<String>)
        ensures
            held(r) == match room_key(self@, name@) {
                Some(f) => match self@.entities[f].irc {
                    Some(binding) => Some(binding.channel),
                    None => None,
                },
                None => None,
            },
    {
        match self.find_room(name) {
            Some((_, room)) => match &room.irc {
                Some(binding) => Some(binding.channel.clone()),
                None => None,
            },
            None => None,
        }
    }

    /// Public fragment lookup for bridge cleanup on room deletion.
    pub fn fragment_for(&self, name: &str) -> (r: Option<String>)
        ensures
            held(r) == resolve(self@, name@),
    {
        match self.resolve_entity_fragment(name) {
            Ok(fragment) => Some(fragment),
            Err(_) => None,
        }
    }

    pub fn has_room(&self, fragment: &str) -> (r: bool)
        ensures
            r == self@.entities.contains_key(fragment@),
    {
        self.entities.contains_key(fragment)
    }

    /// The fragments of the rooms, each once.
    pub fn entities(&self) -> (r: Vec<String>)
        ensures
            lists_keys(texts(r@), self@.entities),
    {
        let n = self.entities.len();
        let ghost order = self.entities.order();
        let mut out: Vec<String> = Vec::new();
        let mut i: usize = 0;
        while i < n
            invariant
                i <= n,
                n == order.len(),
                order == self.entities.order(),
                texts(out@) =~= order.take(i as int),
            decreases n - i,
        {
            let ghost before = texts(out@);
            out.push(self.entities.key_at(i).clone());
            assert(texts(out@) =~= before.push(order[i as int]));
            i += 1;
        }
        assert(texts(out@) =~= order);
        out
    }
}

} // verus!
