//! Entering, digging, linking and deleting rooms.

use vstd::prelude::*;
use vstd::string::*;

use crate::channel::dig::RoomSpec;
use crate::channel::room::{
    exit_views, has_exit, ChannelEntryPolicy, ExitView, RoomActor, RoomExit, RoomView,
};
use crate::collections::{lists_keys, texts, StringMap};
use crate::error::{outcome, Error};
use crate::ids::{
    draw_exit_fragment, draw_room_fragment, id_char, id_index, is_exit_fragment, is_id, is_id_char,
    is_room_address, is_room_fragment, lemma_lengthened, ID_CHARS, ID_LEN,
};
use crate::order::{keys_of, lemma_sorted_values, lemma_walk_counts, sort_texts};
use crate::root::model::{
    arrive_step, concourse, create_step, delete_step, dig_entity_step, dig_from_step,
    dig_or_enter_step, enter_step, exits_elsewhere, instructions, label_map, link_step, linked,
    room_labels, rooms_without, RootView,
};
use crate::root::{DigOutcome, EnterResult, RootActor, CONCOURSE_ROOM};
use crate::text::{ends_with, join_all, same_text, without_leading};

verus! {

/// How often an address is drawn before a free one is looked for instead.
pub const REDRAWS: usize = 16;

/// Whether some address that can be drawn for a room is not in use.
pub open spec fn addresses_left(entities: Map<Seq<char>, RoomView>) -> bool {
    exists|f: Seq<char>| #[trigger] is_room_fragment(f) && !entities.contains_key(f)
}

/// Whether `fragment` and `exit` are addresses that can be drawn for a new room
/// of `root` and the exit to it.
pub open spec fn drawn(root: RootView, fragment: Seq<char>, exit: Seq<char>) -> bool {
    &&& is_room_address(fragment)
    &&& addresses_left(root.entities) ==> is_room_fragment(fragment)
    &&& !root.entities.contains_key(fragment)
    &&& is_exit_fragment(exit)
}

/// The first room address that is not in use, of those whose ids begin with `id`.
fn free_fragment(entities: &StringMap<RoomActor>, id: String) -> (r: Option<String>)
    requires
        is_id(id@),
        id@.len() <= ID_LEN,
    ensures
        match r {
            Some(fragment) => is_room_fragment(fragment@) && !entities@.contains_key(fragment@),
            None => forall|rest: Seq<char>|
                is_id(rest) && rest.len() == ID_LEN && id@.is_prefix_of(rest)
                    ==> entities@.contains_key(#[trigger] ("#room-"@ + rest)),
        },
    decreases ID_LEN - id@.len(),
{
    let len = id.as_str().unicode_len();
    if len == ID_LEN {
        let fragment = "#room-".to_owned().concat(id.as_str());
        if !entities.contains_key(fragment.as_str()) {
            return Some(fragment);
        }
        assert forall|rest: Seq<char>|
            is_id(rest) && rest.len() == ID_LEN && id@.is_prefix_of(rest) implies
            entities@.contains_key(#[trigger] ("#room-"@ + rest)) by {
            assert(rest.subrange(0, ID_LEN as int) =~= rest);
        }
        return None;
    }
    let mut n: u8 = 0;
    while n < ID_CHARS
        invariant
            n <= ID_CHARS,
            is_id(id@),
            len == id@.len(),
            len < ID_LEN,
            forall|rest: Seq<char>|
                is_id(rest) && rest.len() == ID_LEN && id@.is_prefix_of(rest) && id_index(
                    rest[len as int],
                ) < n ==> entities@.contains_key(#[trigger] ("#room-"@ + rest)),
        decreases ID_CHARS - n,
    {
        let c = id_char(n);
        let mut longer = id.clone();
        longer.push(c);
        assert forall|i: int| 0 <= i < longer@.len() implies is_id_char(#[trigger] longer@[i]) by {
            if i < len {
                assert(is_id_char(id@[i]));
            }
        }
        match free_fragment(entities, longer) {
            Some(fragment) => {
                return Some(fragment);
            },
            None => {},
        }
        assert forall|rest: Seq<char>|
            is_id(rest) && rest.len() == ID_LEN && id@.is_prefix_of(rest) && id_index(
                rest[len as int],
            ) < n + 1 implies entities@.contains_key(#[trigger] ("#room-"@ + rest)) by {
            assert(is_id_char(rest[len as int]));
            if id_index(rest[len as int]) == n {
                assert(rest[len as int] == c);
                assert(rest.subrange(0, len as int) =~= id@);
                assert(rest.subrange(0, len + 1) =~= id@.push(c));
            }
        }
        n += 1;
    }
    assert forall|rest: Seq<char>|
        is_id(rest) && rest.len() == ID_LEN && id@.is_prefix_of(rest) implies
        entities@.contains_key(#[trigger] ("#room-"@ + rest)) by {
        assert(is_id_char(rest[len as int]));
    }
    None
}

/// Removes the exits that lead to the room `fragment` with the label `label`.
fn drop_exits_to(room: &mut RoomActor, fragment: &str, label: &str)
    ensures
        final(room)@ == (RoomView {
            exits: exits_elsewhere(old(room)@.exits, fragment@, label@),
            ..old(room)@
        }),
{
    let ghost all = room@.exits;
    let mut kept: Vec<RoomExit> = Vec::new();
    let mut i: usize = 0;
    assert(all.take(0) =~= Seq::<ExitView>::empty());
    while i < room.exits.len()
        invariant
            i <= room.exits@.len(),
            room@ == old(room)@,
            all == room@.exits,
            exit_views(kept@) =~= exits_elsewhere(all.take(i as int), fragment@, label@),
        decreases room.exits@.len() - i,
    {
        proof {
            assert(all.take(i + 1).drop_last() =~= all.take(i as int));
            assert(all.take(i + 1).last() == all[i as int]);
        }
        let target = room.exits[i].target.as_str();
        if !same_text(target, fragment) && !same_text(target, label) && !ends_with(
            target,
            fragment,
        ) {
            let ghost before = exit_views(kept@);
            kept.push(room.exits[i].clone());
            assert(exit_views(kept@) =~= before.push(all[i as int]));
        }
        i += 1;
    }
    assert(all.take(i as int) =~= all);
    room.exits = kept;
}

/// Removes the exits of every room that lead to the room `fragment` with the
/// label `label`.
fn drop_all_exits_to(rooms: &mut StringMap<RoomActor>, fragment: &str, label: &str)
    ensures
        final(rooms)@ == old(rooms)@.map_values(
            |room: RoomView|
                RoomView { exits: exits_elsewhere(room.exits, fragment@, label@), ..room },
        ),
{
    let ghost before = rooms@;
    let ghost cleaned = |room: RoomView|
        RoomView { exits: exits_elsewhere(room.exits, fragment@, label@), ..room };
    let n = rooms.len();
    let ghost order = rooms.order();
    let mut i: usize = 0;
    while i < n
        invariant
            i <= n,
            n == order.len(),
            order == rooms.order(),
            lists_keys(order, before),
            rooms@.dom() =~= before.dom(),
            cleaned == (|room: RoomView|
                RoomView { exits: exits_elsewhere(room.exits, fragment@, label@), ..room }),
            forall|j: int|
                0 <= j < i ==> rooms@[#[trigger] order[j]] == cleaned(before[order[j]]),
            forall|j: int| i <= j < n ==> rooms@[#[trigger] order[j]] == before[order[j]],
        decreases n - i,
    {
        let ghost so_far = rooms@;
        let room = rooms.value_at_mut(i);
        drop_exits_to(room, fragment, label);
        proof {
            assert(rooms@ == so_far.insert(order[i as int], cleaned(before[order[i as int]])));
            assert(so_far.contains_key(order[i as int]));
        }
        i += 1;
    }
    proof {
        assert forall|f: Seq<char>| #[trigger] before.contains_key(f) implies rooms@[f] == cleaned(
            before[f],
        ) by {
            assert(order.contains(f));
            let j = order.index_of(f);
            assert(rooms@[order[j]] == cleaned(before[order[j]]));
        }
        assert(rooms@ =~= before.map_values(cleaned));
    }
}

impl RootActor {
    /// The labels of the rooms other than the concourse, in order.
    pub(crate) fn room_label_list(&self) -> (r: Vec<String>)
        ensures
            texts(r@) == room_labels(self@),
    {
        let n = self.entities.len();
        let ghost order = self.entities.order();
        let ghost named = label_map(self@.entities);
        let mut out: Vec<String> = Vec::new();
        let mut i: usize = 0;
        let ghost mut keys: Seq<Seq<char>> = Seq::empty();
        while i < n
            invariant
                i <= n,
                n == order.len(),
                order == self.entities.order(),
                lists_keys(order, self@.entities),
                named == label_map(self@.entities),
                keys.no_duplicates(),
                forall|k: Seq<char>| #[trigger]
                    keys.contains(k) <==> order.take(i as int).contains(k) && named.contains_key(k),
                texts(out@) =~= keys.map_values(|k: Seq<char>| named[k]),
            decreases n - i,
        {
            let room = self.entities.value_at(i);
            let ghost f = order[i as int];
            let ghost seen = order.take(i as int);
            let ghost next = order.take(i + 1);
            proof {
                assert(next =~= seen.push(f));
                assert(next[i as int] == f);
                assert(!seen.contains(f)) by {
                    if seen.contains(f) {
                        assert(order[seen.index_of(f)] == f);
                    }
                }
                assert forall|k: Seq<char>| #[trigger] next.contains(k) <==> seen.contains(k) || k
                    == f by {
                    if seen.contains(k) {
                        assert(next[seen.index_of(k)] == k);
                    }
                }
            }
            if !same_text(room.fragment.as_str(), CONCOURSE_ROOM) {
                let ghost before = texts(out@);
                let ghost old_keys = keys;
                out.push(room.label.clone());
                proof {
                    keys = old_keys.push(f);
                    assert(!old_keys.contains(f));
                    assert(texts(out@) =~= before.push(named[f]));
                    assert(keys[old_keys.len() as int] == f);
                    assert forall|k: Seq<char>| #[trigger] keys.contains(k) <==> old_keys.contains(
                        k,
                    ) || k == f by {
                        if old_keys.contains(k) {
                            assert(keys[old_keys.index_of(k)] == k);
                        }
                    }
                    assert(keys.no_duplicates()) by {
                        assert forall|a: int, b: int|
                            0 <= a < keys.len() && 0 <= b < keys.len() && a != b implies keys[a]
                            != keys[b] by {
                            if a == old_keys.len() {
                                assert(old_keys.contains(old_keys[b]));
                            } else if b == old_keys.len() {
                                assert(old_keys.contains(old_keys[a]));
                            }
                        }
                    }
                }
            }
            i += 1;
        }
        proof {
            assert(order.take(n as int) =~= order);
            assert forall|k: Seq<char>| #[trigger] keys.contains(k) <==> named.contains_key(k) by {
                if named.contains_key(k) {
                    assert(self@.entities.contains_key(k));
                }
            }
        }
        let r = sort_texts(out);
        proof {
            assert forall|x: Seq<char>| #[trigger] texts(r@).to_multiset().count(x) == keys_of(
                named,
                x,
            ).len() by {
                lemma_walk_counts(keys, named, x);
            }
            lemma_sorted_values(named, texts(r@));
        }
        r
    }

    pub fn concourse_instructions(&self) -> (r: String)
        ensures
            r@ == instructions(self@),
    {
        let labels = self.room_label_list();
        let known = if labels.len() == 0 {
            "(no rooms yet)".to_owned()
        } else {
            join_all(&labels, ", ")
        };
        "Welcome to #concourse\nUse dig <name> to enter an existing room or create and enter a new one.\nLink an existing room in another runtime: dig <name> to <did:ma:...#fragment>\nSet room description: describe <room> <text_with_underscores>\nAdd exit: exit-add <room> <name> <did:ma:...#fragment>\nRemove exit: exit-del <room> <name>\nDelete room: delete <name>\nShow room ctx: ctx <room>\nList rooms with: exits\nInside a room: :prop <key> [value], :owner <did>, :unlock [secret], dig <name>, and IRC config with :irc-server, :irc-nick, :irc-channel, then :irc-connect (owners only).\nKnown rooms: ".to_owned().concat(
        known.as_str())
    }

    pub fn enter_entity(&mut self, did: &str, entity_or_label: &str, ctx: &str) -> (r: Result<
        EnterResult,
        Error,
    >)
        ensures
            (final(self)@, outcome(r)) == enter_step(old(self)@, did@, entity_or_label@, ctx@),
    {
        let fragment = match self.resolve_entity_fragment(entity_or_label) {
            Ok(fragment) => fragment,
            Err(error) => {
                return Err(error);
            },
        };
        match self.entities.get_mut(fragment.as_str()) {
            Some(room) => match room.enter(did, ctx) {
                Ok(_) => {},
                Err(error) => {
                    proof {
                        assert(self@.entities =~= old(self)@.entities);
                    }
                    return Err(error);
                },
            },
            None => {
                return Err(Error::of("entity not found"));
            },
        }
        if same_text(fragment.as_str(), CONCOURSE_ROOM) {
            return Ok(EnterResult::ConcourseGuide(self.concourse_instructions()));
        }
        Ok(EnterResult::Joined)
    }

    /// A room address that no room has yet: one of those that are drawn, as long
    /// as there is one.
    pub(crate) fn generate_fragment(&self) -> (r: String)
        ensures
            is_room_address(r@),
            addresses_left(self@.entities) ==> is_room_fragment(r@),
            !self@.entities.contains_key(r@),
    {
        let mut attempt: usize = 0;
        while attempt < REDRAWS
            invariant
                attempt <= REDRAWS,
            decreases REDRAWS - attempt,
        {
            let fragment = draw_room_fragment();
            assert(is_room_address(fragment@));
            if !self.entities.contains_key(fragment.as_str()) {
                return fragment;
            }
            attempt += 1;
        }
        match free_fragment(&self.entities, String::new()) {
            Some(fragment) => {
                assert(is_room_address(fragment@));
                return fragment;
            },
            None => {
                assert forall|f: Seq<char>| #[trigger] is_room_fragment(f) implies
                    self@.entities.contains_key(f) by {
                    let id = choose|id: Seq<char>|
                        is_id(id) && id.len() == ID_LEN && f == #[trigger] ("#room-"@ + id);
                    assert(Seq::<char>::empty().is_prefix_of(id)) by {
                        assert(id.subrange(0, 0) =~= Seq::<char>::empty());
                    }
                }
            },
        }
        // Longer than every address in use.
        let n = self.entities.len();
        let ghost order = self.entities.order();
        let mut longest: usize = 0;
        let mut i: usize = 0;
        while i < n
            invariant
                i <= n,
                n == order.len(),
                order == self.entities.order(),
                forall|j: int| 0 <= j < i ==> (#[trigger] order[j]).len() <= longest,
            decreases n - i,
        {
            let len = self.entities.key_at(i).as_str().unicode_len();
            if len > longest {
                longest = len;
            }
            i += 1;
        }
        let mut fragment = draw_room_fragment();
        assert(is_room_address(fragment@));
        while fragment.as_str().unicode_len() <= longest
            invariant
                is_room_address(fragment@),
            decreases longest + 1 - fragment@.len(),
        {
            proof {
                lemma_lengthened(fragment@);
            }
            fragment.push('_');
        }
        proof {
            if self@.entities.contains_key(fragment@) {
                assert(order.contains(fragment@));
                assert(order[order.index_of(fragment@)].len() <= longest);
            }
        }
        fragment
    }

    /// Create a room owned by `owner` under `fragment` and register its label.
    /// The caller is responsible for linking it to a parent.
    fn create_room(&mut self, owner: &str, spec_: &RoomSpec, fragment: String) -> (r: Result<
        String,
        Error,
    >)
        ensures
            (final(self)@, outcome(r)) == create_step(old(self)@, owner@, spec_@, fragment@),
    {
        if same_text(
            without_leading(spec_.label.as_str(), '#'),
            without_leading(CONCOURSE_ROOM, '#'),
        ) {
            return Err(Error::of("#concourse is a reserved room"));
        }
        if self.labels.contains_key(spec_.label.as_str()) {
            return Err(Error::of("entity label already exists"));
        }
        let _ = self.labels.insert(spec_.label.clone(), fragment.clone());
        let room = RoomActor::from_spec(
            fragment.clone(),
            spec_.clone(),
            Some(owner.to_owned()),
            ChannelEntryPolicy::open(),
        );
        let _ = self.entities.insert(fragment.clone(), room);
        Ok(fragment)
    }

    /// Link `source` to the room `target`, unless an exit with that name exists.
    fn link_new(&mut self, source: &str, label: &str, target: &str, exit: String)
        ensures
            final(self)@ == linked(old(self)@, source@, label@, target@, exit@),
    {
        if let Some(room) = self.entities.get_mut(source) {
            if !room.has_exit_named(label) {
                room.add_exit_at(label, target, exit);
            }
        }
        proof {
            if !(old(self)@.entities.contains_key(source@) && !has_exit(
                old(self)@.entities[source@].exits,
                label@,
            )) {
                assert(self@.entities =~= old(self)@.entities);
            }
        }
    }

    /// Create a room as a runtime owner. It is linked from the concourse, so
    /// `go <label>` works from the lobby.
    pub fn dig_entity(&mut self, caller: &str, spec_: RoomSpec) -> (r: Result<(), Error>)
        ensures
            exists|fragment: Seq<char>, exit: Seq<char>|
                drawn(old(self)@, fragment, exit) && (final(self)@, outcome(r))
                    == #[trigger] dig_entity_step(
                    old(self)@,
                    caller@,
                    spec_@,
                    fragment,
                    exit,
                ),
    {
        let fragment = self.generate_fragment();
        let exit = draw_exit_fragment();
        assert(drawn(self@, fragment@, exit@));
        self.dig_entity_at(caller, spec_, fragment, exit)
    }

    /// As `dig_entity`, with the addresses of the room and of the exit to it
    /// given.
    pub fn dig_entity_at(
        &mut self,
        caller: &str,
        spec_: RoomSpec,
        fragment: String,
        exit: String,
    ) -> (r: Result<(), Error>)
        ensures
            (final(self)@, outcome(r)) == dig_entity_step(
                old(self)@,
                caller@,
                spec_@,
                fragment@,
                exit@,
            ),
    {
        if !self.is_owner(caller) {
            return Err(Error::of("only owners may dig entities"));
        }
        match self.create_room(caller, &spec_, fragment) {
            Ok(fragment) => {
                self.link_new(CONCOURSE_ROOM, spec_.label.as_str(), fragment.as_str(), exit);
                Ok(())
            },
            Err(error) => Err(error),
        }
    }

    /// Link `source` to an existing room in another runtime. Creates an exit
    /// pointing at the full DID-URL but does not commit local presence; the
    /// caller is redirected to the foreign room instead.
    fn link_external(&mut self, source: &str, label: &str, target: &str, exit: String) -> (r: Result<
        (),
        Error,
    >)
        ensures
            (final(self)@, outcome(r)) == link_step(
                old(self)@,
                source@,
                label@,
                target@,
                exit@,
            ),
    {
        match self.entities.get_mut(source) {
            Some(room) => {
                room.add_exit_at(label, target, exit);
                Ok(())
            },
            None => Err(Error::of("entity not found")),
        }
    }

    /// Enter the room named `name` and say which one it is.
    fn arrive(&mut self, caller: &str, name: &str) -> (r: Result<DigOutcome, Error>)
        ensures
            (final(self)@, outcome(r)) == arrive_step(old(self)@, caller@, name@),
    {
        match self.enter_entity(caller, name, "{}") {
            Ok(_) => {},
            Err(error) => {
                return Err(error);
            },
        }
        match self.find_room(name) {
            Some((_, room)) => Ok(
                DigOutcome::Local {
                    fragment: room.fragment.clone(),
                    name: room.name().to_owned(),
                    description: room.description().to_owned(),
                },
            ),
            None => Err(Error::of("room missing after dig")),
        }
    }

    /// Enter the room with the label that was dug, after creating it if there is
    /// none; or link the concourse to a room in another runtime.
    pub fn dig_or_enter(&mut self, caller: &str, spec_: RoomSpec) -> (r: Result<DigOutcome, Error>)
        ensures
            exists|fragment: Seq<char>, exit: Seq<char>|
                drawn(old(self)@, fragment, exit) && (final(self)@, outcome(r))
                    == #[trigger] dig_or_enter_step(
                    old(self)@,
                    caller@,
                    spec_@,
                    fragment,
                    exit,
                ),
    {
        let fragment = self.generate_fragment();
        let exit = draw_exit_fragment();
        assert(drawn(self@, fragment@, exit@));
        self.dig_or_enter_at(caller, spec_, fragment, exit)
    }

    /// As `dig_or_enter`, with the addresses of a new room and of a new exit
    /// given.
    pub fn dig_or_enter_at(
        &mut self,
        caller: &str,
        spec_: RoomSpec,
        fragment: String,
        exit: String,
    ) -> (r: Result<DigOutcome, Error>)
        ensures
            (final(self)@, outcome(r)) == dig_or_enter_step(
                old(self)@,
                caller@,
                spec_@,
                fragment@,
                exit@,
            ),
    {
        let label = spec_.label.clone();
        if let Some(target) = &spec_.target {
            if !self.is_owner(caller) {
                return Err(Error::of("only owners may dig entities"));
            }
            return match self.link_external(
                CONCOURSE_ROOM,
                label.as_str(),
                target.as_str(),
                exit,
            ) {
                Ok(_) => Ok(DigOutcome::Foreign { target: target.clone(), label }),
                Err(error) => Err(error),
            };
        }
        match self.resolve_entity_fragment(label.as_str()) {
            Ok(_) => {},
            Err(_) => match self.dig_entity_at(caller, spec_, fragment, exit) {
                Ok(_) => {},
                Err(error) => {
                    return Err(error);
                },
            },
        }
        self.arrive(caller, label.as_str())
    }

    /// Dig a new room from inside `source` and enter it. Only the source
    /// room's owner may dig from it; the new room is owned by that caller.
    pub fn dig_from_room(&mut self, caller: &str, source: &str, spec_: RoomSpec) -> (r: Result<
        DigOutcome,
        Error,
    >)
        ensures
            exists|fragment: Seq<char>, exit: Seq<char>|
                drawn(old(self)@, fragment, exit) && (final(self)@, outcome(r))
                    == #[trigger] dig_from_step(
                    old(self)@,
                    caller@,
                    source@,
                    spec_@,
                    fragment,
                    exit,
                ),
    {
        let fragment = self.generate_fragment();
        let exit = draw_exit_fragment();
        assert(drawn(self@, fragment@, exit@));
        self.dig_from_room_at(caller, source, spec_, fragment, exit)
    }

    /// As `dig_from_room`, with the addresses of a new room and of a new exit
    /// given.
    pub fn dig_from_room_at(
        &mut self,
        caller: &str,
        source: &str,
        spec_: RoomSpec,
        fragment: String,
        exit: String,
    ) -> (r: Result<DigOutcome, Error>)
        ensures
            (final(self)@, outcome(r)) == dig_from_step(
                old(self)@,
                caller@,
                source@,
                spec_@,
                fragment@,
                exit@,
            ),
    {
        let source_fragment = match self.find_room(source) {
            Some((source_fragment, room)) => {
                let owned = match room.owner() {
                    Some(owner) => same_text(owner, caller),
                    None => false,
                };
                if !owned {
                    return Err(Error::of("only the room owner may dig from this room"));
                }
                source_fragment
            },
            None => {
                return Err(Error::of("entity not found"));
            },
        };
        if let Some(target) = &spec_.target {
            return match self.link_external(
                source_fragment.as_str(),
                spec_.label.as_str(),
                target.as_str(),
                exit,
            ) {
                Ok(_) => Ok(
                    DigOutcome::Foreign { target: target.clone(), label: spec_.label.clone() },
                ),
                Err(error) => Err(error),
            };
        }
        match self.create_room(caller, &spec_, fragment) {
            Ok(made) => {
                self.link_new(
                    source_fragment.as_str(),
                    spec_.label.as_str(),
                    made.as_str(),
                    exit,
                );
                self.arrive(caller, made.as_str())
            },
            Err(error) => Err(error),
        }
    }

    /// Delete a room, and the exits that lead to it, so that none of them ever
    /// resolves to a dead address on the wire.
    pub fn delete_entity(&mut self, caller: &str, name_or_label: &str) -> (r: Result<(), Error>)
        ensures
            (final(self)@, outcome(r)) == delete_step(old(self)@, caller@, name_or_label@),
    {
        if !self.is_owner(caller) {
            return Err(Error::of("only owners may delete entities"));
        }
        let fragment = match self.resolve_entity_fragment(name_or_label) {
            Ok(fragment) => fragment,
            Err(error) => {
                return Err(error);
            },
        };
        if same_text(fragment.as_str(), CONCOURSE_ROOM) {
            return Err(Error::of("#concourse cannot be deleted"));
        }
        let removed = match self.entities.remove(fragment.as_str()) {
            Some(removed) => removed,
            None => {
                proof {
                    assert(self@.entities =~= old(self)@.entities);
                }
                return Err(Error::of("entity not found"));
            },
        };
        let _ = self.labels.remove(removed.label.as_str());
        drop_all_exits_to(&mut self.entities, fragment.as_str(), removed.label.as_str());
        proof {
            assert(self@.entities =~= rooms_without(old(self)@.entities, fragment@));
        }
        Ok(())
    }
}

} // verus!
