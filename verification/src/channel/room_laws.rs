//! What rooms, nicks, servers and the words of `dig` come to, by their parts.

use vstd::prelude::*;

use crate::channel::dig::{dig_options, dig_spec, is_irc_key, valid_dig_target, SpecView};
use crate::channel::endpoint::{
    endpoint_at, endpoint_of, server_refusal, EndpointView, HostView, UrlView,
};
use crate::channel::nick::{
    candidate, desired_nick, did_suffix, fallback_nick, fill, nick_chars, nick_word, sanitised,
    text_bytes,
};
use crate::channel::room::{
    admits, durable, joinable, restored_room, shown_nick, with_prop, ManifestView, PolicyView,
    PresenceView, RoomView,
};
use crate::channel::speech::lemma_cut;
use crate::text::{
    cut_once, decimal, is_ascii_text, lemma_split_first, lemma_split_whole, trim, unescape,
};
use crate::text::laws::cutting_finds_the_first;

verus! {

// ---- rooms ----

/// An open policy admits everybody that it does not deny.
pub proof fn open_policy_admits_whom_it_does_not_deny(policy: PolicyView, did: Seq<char>)
    requires
        policy.allow,
    ensures
        admits(policy, did) <==> !policy.deny_dids.contains(did),
{
}

/// Setting a prop to nothing takes it away; setting it to something sets it.
/// Nothing else about the room changes.
pub proof fn setting_a_prop_changes_that_prop(room: RoomView, key: Seq<char>, value: Seq<char>)
    ensures
        value.len() == 0 ==> with_prop(room, key, value) == (RoomView {
            props: room.props.remove(key),
            ..room
        }),
        value.len() > 0 ==> with_prop(room, key, value) == (RoomView {
            props: room.props.insert(key, value),
            ..room
        }),
{
}

/// A room can be joined under its binding while its channel is switched on, its
/// server can be used, and its channel is a `#` name.
pub proof fn connected_room_can_be_joined(room: RoomView)
    ensures
        joinable(room) is Some <==> room.irc_active && room.irc is Some && endpoint_at(
            room.irc->0.server,
        ) is Ok && room.irc->0.channel.len() > 1 && room.irc->0.channel[0] == '#',
        joinable(room) is Some ==> joinable(room) == room.irc,
{
}

/// A manifest keeps what is durable of a room: its fragment, its label, its
/// props, its exits and its binding. What is restored from it is that, with
/// nobody in the room or on its channel, switched off, and open to everybody.
pub proof fn manifest_keeps_and_restores(room: RoomView, manifest: ManifestView)
    ensures
        durable(room).fragment == room.fragment,
        durable(room).label == room.label,
        durable(room).props == room.props,
        durable(room).exits == room.exits,
        durable(room).irc == room.irc,
        restored_room(manifest).fragment == manifest.fragment,
        restored_room(manifest).label == manifest.label,
        restored_room(manifest).props == manifest.props,
        restored_room(manifest).exits == manifest.exits,
        restored_room(manifest).irc == manifest.irc,
        !restored_room(manifest).irc_active,
        restored_room(manifest).presence == Map::<Seq<char>, PresenceView>::empty(),
        restored_room(manifest).irc_mirrors == Map::<Seq<char>, Seq<char>>::empty(),
        restored_room(manifest).irc_occupants == Map::<Seq<char>, Seq<char>>::empty(),
        restored_room(manifest).policy == (PolicyView {
            allow: true,
            allow_dids: Set::empty(),
            deny_dids: Set::empty(),
        }),
{
}

// ---- nicks ----

/// An occupant is shown under the word that its ctx is, and under its DID where
/// its ctx is blank or structured data.
pub proof fn occupant_is_shown_under_its_word(presence: PresenceView)
    ensures
        ({
            let word = trim(presence.ctx);
            &&& word.len() == 0 || word[0] == '{' ==> nick_word(presence.ctx) is None
                && shown_nick(presence) == presence.did
            &&& word.len() > 0 && word[0] != '{' ==> nick_word(presence.ctx) == Some(word)
                && shown_nick(presence) == word
        }),
{
}

/// Whether a nick may hold the character.
pub open spec fn nick_may_hold(c: char) -> bool {
    ||| 'a' <= c && c <= 'z'
    ||| 'A' <= c && c <= 'Z'
    ||| '0' <= c && c <= '9'
    ||| c == '-' || c == '_' || c == '[' || c == ']' || c == '\\' || c == '`' || c == '^'
    ||| c == '{' || c == '|' || c == '}'
}

proof fn lemma_nick_chars_filter(raw: Seq<char>)
    ensures
        nick_chars(raw) == raw.filter(|c: char| nick_may_hold(c)),
    decreases raw.len(),
{
    reveal(Seq::filter);
    if raw.len() > 0 {
        lemma_nick_chars_filter(raw.drop_last());
    }
}

/// A nick is made of the characters of a word that it may hold, in their order:
/// an underscore where there is none, one before them where they begin with a
/// digit or a dash, and no more than thirty of them.
pub proof fn nick_keeps_the_legal_characters(raw: Seq<char>)
    ensures
        ({
            let kept = raw.filter(|c: char| nick_may_hold(c));
            let whole = if kept.len() == 0 {
                seq!['_']
            } else if ('0' <= kept[0] && kept[0] <= '9') || kept[0] == '-' {
                seq!['_'] + kept
            } else {
                kept
            };
            &&& whole.len() <= 30 ==> sanitised(raw) == whole
            &&& whole.len() > 30 ==> sanitised(raw) == whole.take(30)
        }),
{
    lemma_nick_chars_filter(raw);
}

proof fn lemma_text_bytes(s: Seq<char>)
    requires
        is_ascii_text(s),
    ensures
        text_bytes(s) == s.len(),
    decreases s.len(),
{
    if s.len() > 0 {
        let rest = s.drop_last();
        assert forall|i: int| 0 <= i < rest.len() implies (#[trigger] rest[i] as u32) < 128 by {
            assert(rest[i] == s[i]);
        }
        lemma_text_bytes(rest);
        assert((s[s.len() - 1] as u32) < 128);
    }
}

proof fn lemma_fill(nick: Seq<char>, rest: Seq<char>)
    requires
        is_ascii_text(nick),
        is_ascii_text(rest),
        nick.len() <= 30,
    ensures
        fill(nick, rest) == nick + rest.take(
            if rest.len() <= 30 - nick.len() {
                rest.len() as int
            } else {
                30 - nick.len()
            },
        ),
    decreases rest.len(),
{
    lemma_text_bytes(nick);
    if rest.len() == 0 || nick.len() == 30 {
        assert(fill(nick, rest) =~= nick + rest.take(
            if rest.len() <= 30 - nick.len() {
                rest.len() as int
            } else {
                30 - nick.len()
            },
        ));
    } else {
        let more = nick.push(rest[0]);
        let less = rest.drop_first();
        assert((rest[0] as u32) < 128);
        assert forall|i: int| 0 <= i < more.len() implies (#[trigger] more[i] as u32) < 128 by {
            if i < nick.len() {
                assert(more[i] == nick[i]);
            }
        }
        assert forall|i: int| 0 <= i < less.len() implies (#[trigger] less[i] as u32) < 128 by {
            assert(less[i] == rest[i + 1]);
        }
        lemma_fill(more, less);
        let n = if rest.len() <= 30 - nick.len() {
            rest.len() as int
        } else {
            30 - nick.len()
        };
        assert(more + less.take(n - 1) =~= nick + rest.take(n));
    }
}

/// The nick made of a DID is `ma-` and what follows `did:ma:`, cut at thirty
/// characters.
pub proof fn fallback_nick_is_made_of_the_did(id: Seq<char>)
    requires
        is_ascii_text(id),
    ensures
        id.len() <= 27 ==> fallback_nick("did:ma:"@ + id) == "ma-"@ + id,
        id.len() > 27 ==> fallback_nick("did:ma:"@ + id) == "ma-"@ + id.take(27),
{
    reveal_strlit("ma-");
    let did = "did:ma:"@ + id;
    assert("did:ma:"@.is_prefix_of(did)) by {
        assert(did.subrange(0, "did:ma:"@.len() as int) =~= "did:ma:"@);
    }
    assert(did.skip("did:ma:"@.len() as int) =~= id);
    assert(did_suffix(did) == id);
    assert(is_ascii_text("ma-"@));
    lemma_fill("ma-"@, id);
    assert(id.take(id.len() as int) =~= id);
}

/// The nick that an occupant wants is made of the word that it presents, or else
/// of its DID.
pub proof fn wanted_nick_is_the_presented_one(ctx: Seq<char>, did: Seq<char>)
    ensures
        ({
            let word = trim(ctx);
            &&& word.len() > 0 && word[0] != '{' ==> desired_nick(Some(ctx), did) == sanitised(word)
            &&& word.len() == 0 || word[0] == '{' ==> desired_nick(Some(ctx), did) == sanitised(
                fallback_nick(did),
            )
        }),
        desired_nick(None, did) == sanitised(fallback_nick(did)),
{
}

/// The first nick to be tried is the wanted one; each further one, up to the
/// sixth, is the wanted one with as many underscores behind it, shortened so that
/// both together are no longer than thirty characters.
pub proof fn candidates_grow_by_underscores(base: Seq<char>, attempt: nat)
    ensures
        candidate(base, 0) == base,
        0 < attempt <= 6 && base.len() + attempt <= 30 ==> candidate(base, attempt) == base
            + Seq::new(attempt, |i: int| '_'),
        0 < attempt <= 6 && base.len() + attempt > 30 ==> candidate(base, attempt) == base.take(
            30 - attempt,
        ) + Seq::new(attempt, |i: int| '_'),
        attempt > 6 ==> candidate(base, attempt) == candidate(base, 6),
{
    let lines = Seq::new(attempt, |i: int| '_');
    if 0 < attempt <= 6 {
        if base.len() + attempt <= 30 {
            assert(candidate(base, attempt) =~= base + lines);
        } else {
            assert(candidate(base, attempt) =~= base.take(30 - attempt) + lines);
        }
    }
}

// ---- servers ----

/// A server is connected to at its host and its port, or else at the port of its
/// scheme, which also says whether TLS is used; an IPv6 address stands in
/// brackets.
pub proof fn server_is_reached_at_host_and_port(server: Seq<char>, parts: UrlView, host: Seq<char>)
    requires
        trim(server).len() > 0,
        "irc://"@.is_prefix_of(server) || "ircs://"@.is_prefix_of(server),
    ensures
        ({
            let port = match parts.port {
                Some(port) => port as nat,
                None => if parts.scheme == "ircs"@ {
                    6697nat
                } else {
                    6667nat
                },
            };
            let tls = parts.scheme == "ircs"@;
            let r = endpoint_of(server, Ok(parts));
            &&& parts.host == HostView::Domain(host) ==> r == Ok::<EndpointView, Seq<char>>(
                EndpointView { connect: host + ":"@ + decimal(port), sni: host, tls },
            )
            &&& parts.host == HostView::Ipv4(host) ==> r == Ok::<EndpointView, Seq<char>>(
                EndpointView { connect: host + ":"@ + decimal(port), sni: host, tls },
            )
            &&& parts.host == HostView::Ipv6(host) ==> r == Ok::<EndpointView, Seq<char>>(
                EndpointView { connect: "["@ + host + "]:"@ + decimal(port), sni: host, tls },
            )
            &&& parts.host == HostView::Missing ==> r == Err::<EndpointView, Seq<char>>(
                "IRC server URL '"@ + server + "' is missing a host"@,
            )
        }),
{
}

/// A server that is not set, that is no IRC URL, or that is no URL at all is
/// refused, and the reason is told.
pub proof fn unusable_server_is_refused(
    server: Seq<char>,
    parts: Result<UrlView, Seq<char>>,
    error: Seq<char>,
)
    ensures
        trim(server).len() == 0 ==> endpoint_of(server, parts) == Err::<EndpointView, Seq<char>>(
            "set the IRC server with :irc-server <irc://host[:port]> or <ircs://host[:port]>"@,
        ),
        trim(server).len() > 0 && !"irc://"@.is_prefix_of(server) && !"ircs://"@.is_prefix_of(
            server,
        ) ==> endpoint_of(server, parts) == Err::<EndpointView, Seq<char>>(
            "IRC server must be a full URL: irc://host[:port] or ircs://host[:port] (got '"@
                + server + "')"@,
        ),
        trim(server).len() > 0 && ("irc://"@.is_prefix_of(server) || "ircs://"@.is_prefix_of(
            server,
        )) ==> endpoint_of(server, Err(error)) == Err::<EndpointView, Seq<char>>(
            "invalid IRC server URL '"@ + server + "': "@ + error,
        ),
        server_refusal(server) is None <==> endpoint_at(server) is Ok,
{
}

// ---- the words of `dig` ----

/// A target is a DID with exactly one `#`, and with something before and behind
/// it.
pub proof fn dig_target_has_one_fragment(a: Seq<char>, b: Seq<char>)
    requires
        !a.contains('#'),
        !b.contains('#'),
    ensures
        valid_dig_target(a + seq!['#'] + b) <==> "did:"@.is_prefix_of(a + seq!['#'] + b) && a.len()
            > 0 && b.len() > 0,
        !valid_dig_target(a),
        forall|c: Seq<char>| !valid_dig_target(#[trigger] (a + seq!['#'] + (b + seq!['#'] + c))),
{
    lemma_split_first(a, b, '#');
    lemma_split_whole(b, '#');
    lemma_split_whole(a, '#');
    assert(seq![a] + seq![b] =~= seq![a, b]);
    assert forall|c: Seq<char>| !valid_dig_target(
        #[trigger] (a + seq!['#'] + (b + seq!['#'] + c)),
    ) by {
        lemma_split_first(a, b + seq!['#'] + c, '#');
        lemma_split_first(b, c, '#');
        crate::text::lemma_split_some(c, '#');
    }
}

proof fn lemma_option(key: Seq<char>, value: Seq<char>)
    requires
        !key.contains(':'),
    ensures
        cut_once(key + seq![':'] + value, ':') == Some((key, value)),
        key + seq![':'] + value != "to"@,
{
    lemma_cut(key, value, ':');
    reveal_strlit("to");
    let token = key + seq![':'] + value;
    if token == "to"@ {
        assert(token[key.len() as int] == ':');
    }
}

/// A name alone asks for a room of that label, without outer spaces; with a
/// description, for one that is described so, with spaces for underscores; with
/// `to` and a target, for a link to that target.
pub proof fn dig_asks_for_what_it_says(name: Seq<char>, value: Seq<char>, did: Seq<char>)
    requires
        value.len() > 0,
        valid_dig_target(did),
    ensures
        dig_spec(seq![name]) == Ok::<SpecView, Seq<char>>(
            SpecView { label: trim(name), description: Seq::empty(), target: None },
        ),
        dig_spec(seq![name, "description"@ + seq![':'] + value]) == Ok::<SpecView, Seq<char>>(
            SpecView { label: trim(name), description: unescape(value), target: None },
        ),
        dig_spec(seq![name, "desc"@ + seq![':'] + value]) == Ok::<SpecView, Seq<char>>(
            SpecView { label: trim(name), description: unescape(value), target: None },
        ),
        dig_spec(seq![name, "to"@, did]) == Ok::<SpecView, Seq<char>>(
            SpecView { label: trim(name), description: Seq::empty(), target: Some(did) },
        ),
        dig_spec(Seq::<Seq<char>>::empty()) == Err::<SpecView, Seq<char>>(
            "dig requires an entity name"@,
        ),
{
    reveal_strlit("description");
    reveal_strlit("desc");
    let none = Seq::<Seq<char>>::empty();
    assert(seq![name].skip(1) =~= none);
    lemma_option("description"@, value);
    lemma_option("desc"@, value);
    let long = "description"@ + seq![':'] + value;
    let short = "desc"@ + seq![':'] + value;
    assert(seq![name, long].skip(1) =~= seq![long]);
    assert(seq![long].skip(1) =~= none);
    assert(seq![name, short].skip(1) =~= seq![short]);
    assert(seq![short].skip(1) =~= none);
    assert(dig_options(none, unescape(value), None) == Ok::<
        (Seq<char>, Option<Seq<char>>),
        Seq<char>,
    >((unescape(value), None)));
    assert(seq![long][0] == long);
    assert(seq![short][0] == short);
    assert(seq![name, "to"@, did].skip(1) =~= seq!["to"@, did]);
    assert(seq!["to"@, did].skip(2) =~= none);
    assert(dig_options(none, Seq::empty(), Some(did)) == Ok::<
        (Seq<char>, Option<Seq<char>>),
        Seq<char>,
    >((Seq::empty(), Some(did))));
}

/// Later options replace earlier ones of their kind: what stands before an option
/// that is accepted does not matter to it.
pub proof fn later_option_replaces_the_earlier(
    rest: Seq<Seq<char>>,
    description: Seq<char>,
    target: Option<Seq<char>>,
    value: Seq<char>,
    did: Seq<char>,
)
    requires
        value.len() > 0,
        valid_dig_target(did),
    ensures
        dig_options(seq!["desc"@ + seq![':'] + value] + rest, description, target) == dig_options(
            rest,
            unescape(value),
            target,
        ),
        dig_options(seq!["description"@ + seq![':'] + value] + rest, description, target)
            == dig_options(rest, unescape(value), target),
        dig_options(seq!["to"@, did] + rest, description, target) == dig_options(
            rest,
            description,
            Some(did),
        ),
{
    reveal_strlit("desc");
    reveal_strlit("description");
    lemma_option("desc"@, value);
    lemma_option("description"@, value);
    let short = seq!["desc"@ + seq![':'] + value] + rest;
    let long = seq!["description"@ + seq![':'] + value] + rest;
    let link = seq!["to"@, did] + rest;
    assert(short.skip(1) =~= rest);
    assert(long.skip(1) =~= rest);
    assert(link.skip(2) =~= rest);
    assert(link[0] == "to"@ && link[1] == did);
}

/// What `dig` refuses, and why: a `to` without a target or with one that is no
/// full address, an option without a key or a value, an option for the channel,
/// any other option, and a description of a room that is not dug.
pub proof fn dig_refuses_the_rest(
    name: Seq<char>,
    key: Seq<char>,
    value: Seq<char>,
    word: Seq<char>,
    did: Seq<char>,
)
    requires
        !key.contains(':'),
        !word.contains(':') && word != "to"@,
        valid_dig_target(did),
    ensures
        dig_spec(seq![name, "to"@]) == Err::<SpecView, Seq<char>>(
            "dig to requires a DID-URL after 'to'"@,
        ),
        !valid_dig_target(value) ==> dig_spec(seq![name, "to"@, value]) == Err::<
            SpecView,
            Seq<char>,
        >("dig to requires a full DID-URL (did:ma:...#fragment)"@),
        dig_spec(seq![name, word]) == Err::<SpecView, Seq<char>>(
            "invalid dig token '"@ + word + "', expected key:value or 'to <did>'"@,
        ),
        key.len() == 0 || value.len() == 0 ==> dig_spec(seq![name, key + seq![':'] + value])
            == Err::<SpecView, Seq<char>>(
            "invalid dig token '"@ + (key + seq![':'] + value)
                + "', key and value are required"@,
        ),
        key.len() > 0 && value.len() > 0 && (key == "server"@ || key == "nick"@ || key == "join"@
            || key == "connect"@ || key == "disconnect"@ || key == "net"@ || key == "pass"@)
            ==> dig_spec(seq![name, key + seq![':'] + value]) == Err::<SpecView, Seq<char>>(
            "dig does not configure IRC; use :irc-server, :irc-channel, and :irc-connect inside the room"@,
        ),
        key.len() > 0 && value.len() > 0 && !is_irc_key(key) && key != "description"@ && key
            != "desc"@ ==> dig_spec(seq![name, key + seq![':'] + value]) == Err::<
            SpecView,
            Seq<char>,
        >("unsupported dig key '"@ + key + "' (supported: description/desc)"@),
        value.len() > 0 ==> dig_spec(seq![name, "desc"@ + seq![':'] + value, "to"@, did]) == Err::<
            SpecView,
            Seq<char>,
        >("description only applies when digging a new room"@),
{
    reveal_strlit("server");
    reveal_strlit("nick");
    reveal_strlit("join");
    reveal_strlit("connect");
    reveal_strlit("disconnect");
    reveal_strlit("net");
    reveal_strlit("pass");
    reveal_strlit("description");
    reveal_strlit("desc");
    assert("desc"@.len() == 4 && "desc"@[0] == 'd' && "description"@.len() == 11);
    let token = key + seq![':'] + value;
    lemma_option(key, value);
    cutting_finds_the_first(word, ':');
    assert(seq![name, "to"@].skip(1) =~= seq!["to"@]);
    assert(seq![name, "to"@, value].skip(1) =~= seq!["to"@, value]);
    assert(seq![name, word].skip(1) =~= seq![word]);
    assert(seq![name, token].skip(1) =~= seq![token]);
    assert(seq![token][0] == token);
    if value.len() > 0 {
        let short = "desc"@ + seq![':'] + value;
        let none = Seq::<Seq<char>>::empty();
        let rest = seq!["to"@, did];
        assert(seq![name, short, "to"@, did].skip(1) =~= seq![short] + rest);
        assert(rest =~= seq!["to"@, did] + none);
        later_option_replaces_the_earlier(rest, Seq::empty(), None, value, did);
        later_option_replaces_the_earlier(none, unescape(value), None, value, did);
        assert(dig_options(none, unescape(value), Some(did)) == Ok::<
            (Seq<char>, Option<Seq<char>>),
            Seq<char>,
        >((unescape(value), Some(did))));
        assert(unescape(value).len() == value.len());
    }
}

/// The nick made of a DID is cut where it has thirty bytes or more: one byte for
/// each ASCII character, up to four for others.
pub proof fn fallback_nick_is_cut_at_thirty_bytes(did: Seq<char>, s: Seq<char>, c: char)
    ensures
        exists|n: int|
            0 <= n <= did_suffix(did).len() && fallback_nick(did) == "ma-"@
                + #[trigger] did_suffix(did).take(n) && (n < did_suffix(did).len() ==> text_bytes(
                fallback_nick(did),
            ) >= 30) && (n > 0 ==> text_bytes("ma-"@ + did_suffix(did).take(n - 1)) < 30),
        text_bytes(Seq::<char>::empty()) == 0,
        text_bytes(s.push(c)) == text_bytes(s) + if (c as u32) < 0x80 {
            1nat
        } else if (c as u32) < 0x800 {
            2nat
        } else if (c as u32) < 0x10000 {
            3nat
        } else {
            4nat
        },
        !"did:ma:"@.is_prefix_of(did) ==> did_suffix(did) == did,
{
    assert(s.push(c).drop_last() =~= s);
    let n = lemma_filled("ma-"@, did_suffix(did));
    assert(fallback_nick(did) == "ma-"@ + did_suffix(did).take(n));
}

proof fn lemma_filled(nick: Seq<char>, rest: Seq<char>) -> (n: int)
    ensures
        0 <= n <= rest.len(),
        fill(nick, rest) == nick + rest.take(n),
        n < rest.len() ==> text_bytes(fill(nick, rest)) >= 30,
        n > 0 ==> text_bytes(nick + rest.take(n - 1)) < 30,
    decreases rest.len(),
{
    if rest.len() == 0 || text_bytes(nick) >= 30 {
        assert(nick + rest.take(0) =~= nick);
        0
    } else {
        let more = nick.push(rest[0]);
        let less = rest.drop_first();
        let m = lemma_filled(more, less);
        assert(more + less.take(m) =~= nick + rest.take(m + 1));
        if m > 0 {
            assert(more + less.take(m - 1) =~= nick + rest.take(m));
        } else {
            assert(nick + rest.take(0) =~= nick);
        }
        m + 1
    }
}

} // verus!
