//! What is told of the root: snapshots, traversal, and the manifest.

use vstd::prelude::*;
use vstd::string::*;

use crate::channel::endpoint::{BindingView, IrcBinding};
use crate::channel::room::{
    bound, copy_binding, copy_exits, durable, exit_views, lists_presence, presence_views, prop,
    room_description, room_name, room_owner, ExitView, ManifestView, PresenceRecord, PresenceView,
    RoomActor, RoomExit, RoomManifest, RoomView,
};
use crate::collections::{held, lists_keys, texts, StringMap};
use crate::error::Error;
use crate::order::{place, sorted, sorted_values};
use crate::root::model::{
    concourse, exit_at, exit_known, holds_exit, restored, restored_root, room_key, traversed,
    url_of, RootView,
};
use crate::root::{new_concourse, owner_set, RootActor, TraverseReply, CONCOURSE_ROOM};
use crate::text::{same_text, starts_with};

verus! {

// ---- snapshots ----

/// Plain room data for wire-level ctx assembly (the transport knows the
/// runtime DID and builds full actor addresses).
#[derive(Debug)]
pub struct RoomSnapshot {
    /// Internal fragment, including '#', e.g. "#room-a1b2c3d4e5".
    pub fragment: String,
    pub label: String,
    pub name: String,
    pub description: String,
    pub owner: Option<String>,
    pub locked: Option<String>,
    pub presence: Vec<PresenceRecord>,
    pub exits: Vec<RoomExit>,
    /// Untrusted IRC channel occupants (the room-held fake-actor list).
    pub irc_occupants: Vec<String>,
}

/// What a `RoomSnapshot` holds.
#[verifier::ext_equal]
pub struct SnapshotView {
    pub fragment: Seq<char>,
    pub label: Seq<char>,
    pub name: Seq<char>,
    pub description: Seq<char>,
    pub owner: Option<Seq<char>>,
    pub locked: Option<Seq<char>>,
    pub presence: Seq<PresenceView>,
    pub exits: Seq<ExitView>,
    pub irc_occupants: Seq<Seq<char>>,
}

impl View for RoomSnapshot {
    type V = SnapshotView;

    open spec fn view(&self) -> SnapshotView {
        SnapshotView {
            fragment: self.fragment@,
            label: self.label@,
            name: self.name@,
            description: self.description@,
            owner: held(self.owner),
            locked: held(self.locked),
            presence: presence_views(self.presence@),
            exits: exit_views(self.exits@),
            irc_occupants: texts(self.irc_occupants@),
        }
    }
}

/// A room as a snapshot shows it; `presence` lists its occupants.
pub open spec fn snapshot_of(room: RoomView, presence: Seq<PresenceView>) -> SnapshotView {
    SnapshotView {
        fragment: room.fragment,
        label: room.label,
        name: room_name(room),
        description: room_description(room),
        owner: room_owner(room),
        locked: prop(room, "locked"@),
        presence,
        exits: room.exits,
        irc_occupants: sorted_values(room.irc_occupants),
    }
}

/// A room in the graph of all rooms.
#[derive(Debug)]
pub struct RoomGraphNode {
    pub fragment: String,
    pub label: String,
    pub description: String,
    pub exits: Vec<RoomExit>,
    pub irc: Option<IrcBinding>,
    pub presence_count: usize,
    pub is_concourse: bool,
}

/// What a `RoomGraphNode` holds.
#[verifier::ext_equal]
pub struct NodeView {
    pub fragment: Seq<char>,
    pub label: Seq<char>,
    pub description: Seq<char>,
    pub exits: Seq<ExitView>,
    pub irc: Option<BindingView>,
    pub presence_count: nat,
    pub is_concourse: bool,
}

impl View for RoomGraphNode {
    type V = NodeView;

    open spec fn view(&self) -> NodeView {
        NodeView {
            fragment: self.fragment@,
            label: self.label@,
            description: self.description@,
            exits: exit_views(self.exits@),
            irc: bound(self.irc),
            presence_count: self.presence_count as nat,
            is_concourse: self.is_concourse,
        }
    }
}

/// A room as the graph shows it.
pub open spec fn node_of(room: RoomView) -> NodeView {
    NodeView {
        fragment: room.fragment,
        label: room.label,
        description: room_description(room),
        exits: room.exits,
        irc: room.irc,
        presence_count: room.presence.len(),
        is_concourse: room.fragment == concourse(),
    }
}

/// The graph of all rooms.
#[derive(Debug)]
pub struct RoomGraphSnapshot {
    pub rooms: Vec<RoomGraphNode>,
}

impl View for RoomGraphSnapshot {
    type V = Seq<NodeView>;

    open spec fn view(&self) -> Seq<NodeView> {
        self.rooms@.map_values(|node: RoomGraphNode| node@)
    }
}

/// The values of the keys under a map.
pub open spec fn looked_up<V>(keys: Seq<Seq<char>>, map: Map<Seq<char>, V>) -> Seq<V> {
    keys.map_values(|k: Seq<char>| map[k])
}

/// Whether `nodes` shows every room once, in the order of the labels.
pub open spec fn shows_rooms(
    nodes: Seq<NodeView>,
    entities: Map<Seq<char>, RoomView>,
) -> bool {
    &&& sorted(nodes.map_values(|node: NodeView| node.label))
    &&& exists|keys: Seq<Seq<char>>| #[trigger]
        lists_keys(keys, entities) && nodes == looked_up(keys, entities).map_values(
            |room: RoomView| node_of(room),
        )
}

/// The serialisable root manifest: a single DAG-CBOR node holding every room's
/// durable state (identity, props, exits). Transient presence, IRC sessions,
/// root ownership, and claim state are not persisted.
#[derive(Debug)]
pub struct RootManifest {
    pub rooms: Vec<RoomManifest>,
}

impl View for RootManifest {
    type V = Seq<ManifestView>;

    open spec fn view(&self) -> Seq<ManifestView> {
        self.rooms@.map_values(|room: RoomManifest| room@)
    }
}

/// Whether `rooms` holds the durable part of every room once, in the order of
/// the fragments.
pub open spec fn keeps_rooms(
    rooms: Seq<ManifestView>,
    entities: Map<Seq<char>, RoomView>,
) -> bool {
    &&& sorted(rooms.map_values(|room: ManifestView| room.fragment))
    &&& exists|keys: Seq<Seq<char>>| #[trigger]
        lists_keys(keys, entities) && rooms == looked_up(keys, entities).map_values(
            |room: RoomView| durable(room),
        )
}

proof fn lemma_key_inserted(keys: Seq<Seq<char>>, at: int, f: Seq<char>)
    requires
        keys.no_duplicates(),
        !keys.contains(f),
        0 <= at <= keys.len(),
    ensures
        keys.insert(at, f).no_duplicates(),
        forall|k: Seq<char>| #[trigger]
            keys.insert(at, f).contains(k) <==> keys.contains(k) || k == f,
{
    let more = keys.insert(at, f);
    assert forall|i: int, j: int| 0 <= i < more.len() && 0 <= j < more.len() && i != j implies more[i]
        != more[j] by {
        let i0 = if i < at { i } else { i - 1 };
        let j0 = if j < at { j } else { j - 1 };
        if i != at {
            assert(more[i] == keys[i0]);
            assert(keys.contains(keys[i0]));
        }
        if j != at {
            assert(more[j] == keys[j0]);
            assert(keys.contains(keys[j0]));
        }
    }
    assert forall|k: Seq<char>| #[trigger] more.contains(k) <==> keys.contains(k) || k == f by {
        if keys.contains(k) {
            let i = keys.index_of(k);
            if i < at {
                assert(more[i] == k);
            } else {
                assert(more[i + 1] == k);
            }
        }
        if k == f {
            assert(more[at] == k);
        }
        if more.contains(k) && k != f {
            let i = more.index_of(k);
            let i0 = if i < at { i } else { i - 1 };
            assert(keys[i0] == k);
        }
    }
}

proof fn lemma_next_key(order: Seq<Seq<char>>, i: int)
    requires
        order.no_duplicates(),
        0 <= i < order.len(),
    ensures
        !order.take(i).contains(order[i]),
        forall|k: Seq<char>| #[trigger]
            order.take(i + 1).contains(k) <==> order.take(i).contains(k) || k == order[i],
{
    let seen = order.take(i);
    let next = order.take(i + 1);
    if seen.contains(order[i]) {
        assert(order[seen.index_of(order[i])] == order[i]);
    }
    assert forall|k: Seq<char>| #[trigger] next.contains(k) <==> seen.contains(k) || k
        == order[i] by {
        if seen.contains(k) {
            assert(next[seen.index_of(k)] == k);
        }
        if k == order[i] {
            assert(next[i] == k);
        }
        if next.contains(k) && k != order[i] {
            let j = next.index_of(k);
            assert(seen[j] == k);
        }
    }
}

fn graph_node(room: &RoomActor) -> (r: RoomGraphNode)
    ensures
        r@ == node_of(room@),
{
    RoomGraphNode {
        fragment: room.fragment.clone(),
        label: room.label.clone(),
        description: room.description().to_owned(),
        exits: copy_exits(&room.exits),
        irc: copy_binding(&room.irc),
        presence_count: room.presence.len(),
        is_concourse: same_text(room.fragment.as_str(), CONCOURSE_ROOM),
    }
}

/// The index of the first exit with the address `fragment`.
fn exit_index(exits: &Vec<RoomExit>, fragment: &str) -> (r: usize)
    ensures
        r == exit_at(exit_views(exits@), fragment@),
        r <= exits@.len(),
{
    let ghost all = exit_views(exits@);
    let mut i: usize = 0;
    assert(all.skip(0) =~= all);
    while i < exits.len() && !same_text(exits[i].fragment.as_str(), fragment)
        invariant
            i <= exits@.len(),
            all == exit_views(exits@),
            exit_at(all, fragment@) == i + exit_at(all.skip(i as int), fragment@),
        decreases exits@.len() - i,
    {
        assert(all.skip(i as int).drop_first() =~= all.skip(i + 1));
        i += 1;
    }
    i
}

/// The first of `keys` under which `root` has a room with an exit at `fragment`.
spec fn first_holder(keys: Seq<Seq<char>>, root: RootView, fragment: Seq<char>) -> Seq<char>
    decreases keys.len(),
{
    if keys.len() <= 1 || holds_exit(root, keys[0], fragment) {
        keys[0]
    } else {
        first_holder(keys.drop_first(), root, fragment)
    }
}

proof fn lemma_first_holder(
    keys: Seq<Seq<char>>,
    root: RootView,
    fragment: Seq<char>,
    n: int,
)
    requires
        0 <= n < keys.len(),
        holds_exit(root, keys[n], fragment),
        forall|i: int| 0 <= i < n ==> !holds_exit(root, #[trigger] keys[i], fragment),
    ensures
        first_holder(keys, root, fragment) == keys[n],
    decreases keys.len(),
{
    if n > 0 {
        let rest = keys.drop_first();
        assert(!holds_exit(root, keys[0], fragment));
        assert forall|i: int| 0 <= i < n - 1 implies !holds_exit(
            root,
            #[trigger] rest[i],
            fragment,
        ) by {
            assert(rest[i] == keys[i + 1]);
        }
        lemma_first_holder(rest, root, fragment, n - 1);
    }
}

proof fn lemma_some_holder(
    keys: Seq<Seq<char>>,
    root: RootView,
    fragment: Seq<char>,
    n: int,
)
    requires
        0 <= n < keys.len(),
        holds_exit(root, keys[n], fragment),
    ensures
        holds_exit(root, first_holder(keys, root, fragment), fragment),
    decreases keys.len(),
{
    if !holds_exit(root, keys[0], fragment) {
        lemma_some_holder(keys.drop_first(), root, fragment, n - 1);
    }
}

impl RootActor {
    /// Resolve a destination to a full DID-URL. Foreign DID-URLs pass
    /// through; local room fragments/labels are resolved against this
    /// runtime. Everything emitted on the wire is a full DID-URL.
    pub fn room_url(&self, runtime_did: &str, target: &str) -> (r: Option<String>)
        ensures
            held(r) == url_of(self@, runtime_did@, target@),
    {
        if starts_with(target, "did:") {
            Some(target.to_owned())
        } else {
            match self.resolve_entity_fragment(target) {
                Ok(fragment) => Some(runtime_did.to_owned().concat(fragment.as_str())),
                Err(_) => None,
            }
        }
    }

    /// The room under which an exit with the address `fragment` is found: the
    /// first one that has it, in the order in which the rooms are kept.
    pub closed spec fn holder(&self, fragment: Seq<char>) -> Seq<char> {
        first_holder(self.entities.order(), self@, fragment)
    }

    /// Where an exit is known, the room under which it is found has it.
    pub(crate) fn holder_of(&self, fragment: &str) -> (r: Ghost<Seq<char>>)
        ensures
            r@ == self.holder(fragment@),
            exit_known(self@, fragment@) ==> holds_exit(self@, r@, fragment@),
    {
        let _ = self.entities.len();
        let ghost order = self.entities.order();
        proof {
            if exit_known(self@, fragment@) {
                let f = choose|f: Seq<char>| #[trigger] holds_exit(self@, f, fragment@);
                assert(order.contains(f));
                lemma_some_holder(order, self@, fragment@, order.index_of(f));
            }
        }
        Ghost(self.holder(fragment@))
    }

    /// The room that has an exit with the address `fragment`.
    fn exit_holder(&self, fragment: &str) -> (r: Option<&RoomActor>)
        ensures
            match r {
                Some(room) => holds_exit(self@, self.holder(fragment@), fragment@) && room@
                    == self@.entities[self.holder(fragment@)],
                None => !exit_known(self@, fragment@),
            },
    {
        let n = self.entities.len();
        let ghost order = self.entities.order();
        let mut i: usize = 0;
        while i < n
            invariant
                i <= n,
                n == order.len(),
                order == self.entities.order(),
                lists_keys(order, self@.entities),
                forall|j: int| 0 <= j < i ==> !holds_exit(self@, #[trigger] order[j], fragment@),
            decreases n - i,
        {
            let room = self.entities.value_at(i);
            if exit_index(&room.exits, fragment) < room.exits.len() {
                proof {
                    assert(holds_exit(self@, order[i as int], fragment@));
                    lemma_first_holder(order, self@, fragment@, i as int);
                }
                return Some(room);
            }
            i += 1;
        }
        proof {
            assert forall|f: Seq<char>| !#[trigger] holds_exit(self@, f, fragment@) by {
                if self@.entities.contains_key(f) {
                    assert(order.contains(f));
                    assert(!holds_exit(self@, order[order.index_of(f)], fragment@));
                }
            }
        }
        None
    }

    /// Find the room that owns an exit fragment.
    pub fn find_exit(&self, fragment: &str) -> (r: Option<(&str, &RoomExit)>)
        ensures
            match r {
                Some((owner, exit)) => {
                    let room = self@.entities[self.holder(fragment@)];
                    &&& holds_exit(self@, self.holder(fragment@), fragment@)
                    &&& owner@ == room.fragment
                    &&& exit@ == room.exits[exit_at(room.exits, fragment@)]
                },
                None => !exit_known(self@, fragment@),
            },
    {
        match self.exit_holder(fragment) {
            Some(room) => {
                let i = exit_index(&room.exits, fragment);
                Some((room.fragment.as_str(), &room.exits[i]))
            },
            None => None,
        }
    }

    /// Minimal `:traverse`. An unresolvable or empty target keeps the
    /// traveller in the source room; every address in the reply is a full
    /// DID-URL.
    pub fn exit_traverse(
        &self,
        exit_fragment: &str,
        caller: &str,
        did: Option<&str>,
        runtime_did: &str,
    ) -> (r: Result<TraverseReply, Error>)
        ensures
            match r {
                Ok(reply) => holds_exit(self@, self.holder(exit_fragment@), exit_fragment@)
                    && reply@ == traversed(
                        self@,
                        self.holder(exit_fragment@),
                        exit_fragment@,
                        match did {
                            Some(did) => did@,
                            None => caller@,
                        },
                        runtime_did@,
                    ),
                Err(error) => !exit_known(self@, exit_fragment@) && error@ == "exit not found"@,
            },
    {
        match self.exit_holder(exit_fragment) {
            Some(room) => {
                let exit = &room.exits[exit_index(&room.exits, exit_fragment)];
                let traveller = match did {
                    Some(did) => did,
                    None => caller,
                };
                let url = if exit.target.as_str().is_empty() {
                    None
                } else {
                    self.room_url(runtime_did, exit.target.as_str())
                };
                let (parent, text) = match url {
                    Some(url) => (
                        url,
                        "You go ".to_owned().concat(exit.name.as_str()).concat("."),
                    ),
                    None => (
                        runtime_did.to_owned().concat(room.fragment.as_str()),
                        "This exit leads nowhere.".to_owned(),
                    ),
                };
                Ok(
                    TraverseReply {
                        did: traveller.to_owned(),
                        parent,
                        text,
                        exit: runtime_did.to_owned().concat(exit.fragment.as_str()),
                        direction: exit.name.clone(),
                    },
                )
            },
            None => Err(Error::of("exit not found")),
        }
    }

    /// Snapshot for wire-level ctx assembly.
    pub fn room_snapshot(&self, name_or_label: &str) -> (r: Option<RoomSnapshot>)
        ensures
            match r {
                Some(snapshot) => {
                    &&& room_key(self@, name_or_label@) is Some
                    &&& {
                        let room = self@.entities[room_key(self@, name_or_label@)->0];
                        &&& lists_presence(snapshot@.presence, room.presence)
                        &&& snapshot@ == snapshot_of(room, snapshot@.presence)
                    }
                },
                None => room_key(self@, name_or_label@) is None,
            },
    {
        match self.find_room(name_or_label) {
            Some((_, room)) => {
                let owner = match room.owner() {
                    Some(owner) => Some(owner.to_owned()),
                    None => None,
                };
                let locked = match room.get_prop("locked") {
                    Some(locked) => Some(locked.to_owned()),
                    None => None,
                };
                Some(
                    RoomSnapshot {
                        fragment: room.fragment.clone(),
                        label: room.label.clone(),
                        name: room.name().to_owned(),
                        description: room.description().to_owned(),
                        owner,
                        locked,
                        presence: room.presence_list(),
                        exits: copy_exits(&room.exits),
                        irc_occupants: room.irc_occupant_nicks(),
                    },
                )
            },
            None => None,
        }
    }

    pub fn room_graph_snapshot(&self) -> (r: RoomGraphSnapshot)
        ensures
            shows_rooms(r@, self@.entities),
    {
        let n = self.entities.len();
        let ghost order = self.entities.order();
        let mut rooms: Vec<RoomGraphNode> = Vec::new();
        let mut labels: Vec<String> = Vec::new();
        let ghost mut keys: Seq<Seq<char>> = Seq::empty();
        let mut i: usize = 0;
        while i < n
            invariant
                i <= n,
                n == order.len(),
                order == self.entities.order(),
                lists_keys(order, self@.entities),
                keys.no_duplicates(),
                forall|k: Seq<char>| #[trigger]
                    keys.contains(k) <==> order.take(i as int).contains(k),
                rooms@.len() == keys.len(),
                labels@.len() == keys.len(),
                forall|j: int|
                    0 <= j < keys.len() ==> (#[trigger] rooms@[j])@ == node_of(
                        self@.entities[keys[j]],
                    ),
                forall|j: int|
                    0 <= j < keys.len() ==> (#[trigger] labels@[j])@
                        == self@.entities[keys[j]].label,
                sorted(texts(labels@)),
            decreases n - i,
        {
            let room = self.entities.value_at(i);
            let ghost f = order[i as int];
            let at = place(&labels, room.label.as_str());
            let ghost before = texts(labels@);
            let ghost old_keys = keys;
            rooms.insert(at, graph_node(room));
            labels.insert(at, room.label.clone());
            proof {
                lemma_next_key(order, i as int);
                lemma_key_inserted(old_keys, at as int, f);
                keys = old_keys.insert(at as int, f);
                assert(texts(labels@) =~= before.insert(at as int, room@.label));
            }
            i += 1;
        }
        let r = RoomGraphSnapshot { rooms };
        proof {
            assert(order.take(n as int) =~= order);
            assert(lists_keys(keys, self@.entities));
            assert(r@ =~= looked_up(keys, self@.entities).map_values(
                |room: RoomView| node_of(room),
            ));
            assert(r@.map_values(|node: NodeView| node.label) =~= texts(labels@)) by {
                assert forall|j: int| 0 <= j < r@.len() implies (#[trigger] r@[j]).label
                    == texts(labels@)[j] by {
                    assert(rooms@[j]@ == node_of(self@.entities[keys[j]]));
                    assert(labels@[j]@ == self@.entities[keys[j]].label);
                }
            }
        }
        r
    }

    /// Build the serialisable manifest from the current in-memory root,
    /// keeping only rooms and their durable props/exits. The order is fixed, so
    /// that an unchanged root keeps a stable CID.
    pub fn to_manifest(&self) -> (r: RootManifest)
        ensures
            keeps_rooms(r@, self@.entities),
    {
        let n = self.entities.len();
        let ghost order = self.entities.order();
        let mut rooms: Vec<RoomManifest> = Vec::new();
        let mut fragments: Vec<String> = Vec::new();
        let ghost mut keys: Seq<Seq<char>> = Seq::empty();
        let mut i: usize = 0;
        while i < n
            invariant
                i <= n,
                n == order.len(),
                order == self.entities.order(),
                lists_keys(order, self@.entities),
                keys.no_duplicates(),
                forall|k: Seq<char>| #[trigger]
                    keys.contains(k) <==> order.take(i as int).contains(k),
                rooms@.len() == keys.len(),
                fragments@.len() == keys.len(),
                forall|j: int|
                    0 <= j < keys.len() ==> (#[trigger] rooms@[j])@ == durable(
                        self@.entities[keys[j]],
                    ),
                forall|j: int|
                    0 <= j < keys.len() ==> (#[trigger] fragments@[j])@
                        == self@.entities[keys[j]].fragment,
                sorted(texts(fragments@)),
            decreases n - i,
        {
            let room = self.entities.value_at(i);
            let ghost f = order[i as int];
            let at = place(&fragments, room.fragment.as_str());
            let ghost before = texts(fragments@);
            let ghost old_keys = keys;
            rooms.insert(at, room.to_manifest());
            fragments.insert(at, room.fragment.clone());
            proof {
                lemma_next_key(order, i as int);
                lemma_key_inserted(old_keys, at as int, f);
                keys = old_keys.insert(at as int, f);
                assert(texts(fragments@) =~= before.insert(at as int, room@.fragment));
            }
            i += 1;
        }
        let r = RootManifest { rooms };
        proof {
            assert(order.take(n as int) =~= order);
            assert(lists_keys(keys, self@.entities));
            assert(r@ =~= looked_up(keys, self@.entities).map_values(
                |room: RoomView| durable(room),
            ));
            assert(r@.map_values(|room: ManifestView| room.fragment) =~= texts(fragments@)) by {
                assert forall|j: int| 0 <= j < r@.len() implies (#[trigger] r@[j]).fragment
                    == texts(fragments@)[j] by {
                    assert(rooms@[j]@ == durable(self@.entities[keys[j]]));
                    assert(fragments@[j]@ == self@.entities[keys[j]].fragment);
                }
            }
        }
        r
    }

    /// Rebuild the root from a persisted manifest. Transient state starts
    /// empty and the configured owners are supplied by the caller.
    pub fn from_manifest(manifest: RootManifest, owners: Vec<String>) -> (r: RootActor)
        ensures
            r@ == restored_root(manifest@, texts(owners@).to_set()),
    {
        let ghost all = manifest@;
        let mut entities: StringMap<RoomActor> = StringMap::new();
        let mut labels: StringMap<String> = StringMap::new();
        let mut i: usize = 0;
        assert(all.take(0) =~= Seq::<ManifestView>::empty());
        while i < manifest.rooms.len()
            invariant
                i <= manifest.rooms@.len(),
                all == manifest@,
                (entities@, labels@) == restored(all.take(i as int)),
            decreases manifest.rooms@.len() - i,
        {
            proof {
                assert(all.take(i + 1).drop_last() =~= all.take(i as int));
                assert(all.take(i + 1).last() == all[i as int]);
            }
            let room = &manifest.rooms[i];
            let _ = labels.insert(room.label.clone(), room.fragment.clone());
            let _ = entities.insert(
                room.fragment.clone(),
                RoomActor::from_manifest(room.clone()),
            );
            i += 1;
        }
        assert(all.take(i as int) =~= all);
        // `#concourse` always exists, even for a first-run or partial manifest.
        if !entities.contains_key(CONCOURSE_ROOM) {
            let _ = entities.insert(CONCOURSE_ROOM.to_owned(), new_concourse());
            let _ = labels.insert(CONCOURSE_ROOM.to_owned(), CONCOURSE_ROOM.to_owned());
        }
        RootActor { owners: owner_set(owners), claimed_by: None, entities, labels }
    }
}

} // verus!
