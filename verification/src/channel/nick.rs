//! IRC nicks: legal ones, wanted ones, and the next one to try.

use vstd::prelude::*;
use vstd::string::*;

use crate::collections::lent;
use crate::text::{
    after_prefix, begins_with, chars_of, starts_with_char, text_of, trim, trimmed,
};

verus! {

pub const MAX_NICK_ATTEMPTS: usize = 6;

pub const MAX_IRC_NICK_LEN: usize = 30;

/// ASCII letters, digits and the special characters that are legal in a nick.
pub open spec fn is_nick_char(c: char) -> bool {
    ||| 'a' <= c && c <= 'z'
    ||| 'A' <= c && c <= 'Z'
    ||| is_digit(c)
    ||| c == '-'
    ||| c == '_'
    ||| c == '['
    ||| c == ']'
    ||| c == '\\'
    ||| c == '`'
    ||| c == '^'
    ||| c == '{'
    ||| c == '|'
    ||| c == '}'
}

pub open spec fn is_digit(c: char) -> bool {
    '0' <= c && c <= '9'
}

/// The legal characters of `raw`, in order.
pub open spec fn nick_chars(raw: Seq<char>) -> Seq<char>
    decreases raw.len(),
{
    if raw.len() == 0 {
        Seq::empty()
    } else if is_nick_char(raw.last()) {
        nick_chars(raw.drop_last()).push(raw.last())
    } else {
        nick_chars(raw.drop_last())
    }
}

/// The first `n` characters of `s`, or all of them.
pub open spec fn at_most(s: Seq<char>, n: int) -> Seq<char> {
    if s.len() > n {
        s.take(n)
    } else {
        s
    }
}

/// A nonempty nick, led by `_` where it would start with a digit or `-`.
pub open spec fn lead(kept: Seq<char>) -> Seq<char> {
    if kept.len() == 0 {
        seq!['_']
    } else if is_digit(kept[0]) || kept[0] == '-' {
        seq!['_'] + kept
    } else {
        kept
    }
}

/// The nick made of a human word.
pub open spec fn sanitised(raw: Seq<char>) -> Seq<char> {
    at_most(lead(nick_chars(raw)), MAX_IRC_NICK_LEN as int)
}

/// A nick that a server can accept: not empty, not too long, made of legal
/// characters, and not led by a digit or `-`.
pub open spec fn legal_nick(nick: Seq<char>) -> bool {
    &&& 0 < nick.len() <= MAX_IRC_NICK_LEN
    &&& forall|i: int| 0 <= i < nick.len() ==> is_nick_char(#[trigger] nick[i])
    &&& !is_digit(nick[0])
    &&& nick[0] != '-'
}

proof fn lemma_nick_chars(raw: Seq<char>)
    ensures
        forall|i: int| 0 <= i < nick_chars(raw).len() ==> is_nick_char(#[trigger] nick_chars(raw)[i]),
    decreases raw.len(),
{
    if raw.len() > 0 {
        lemma_nick_chars(raw.drop_last());
        let kept = nick_chars(raw);
        let before = nick_chars(raw.drop_last());
        assert forall|i: int| 0 <= i < kept.len() implies is_nick_char(#[trigger] kept[i]) by {
            if i < before.len() {
                assert(kept[i] == before[i]);
            }
        }
    }
}

proof fn lemma_nick_chars_kept(raw: Seq<char>)
    requires
        forall|i: int| 0 <= i < raw.len() ==> is_nick_char(#[trigger] raw[i]),
    ensures
        nick_chars(raw) == raw,
    decreases raw.len(),
{
    if raw.len() > 0 {
        lemma_nick_chars_kept(raw.drop_last());
        assert(is_nick_char(raw[raw.len() - 1]));
        assert(raw =~= raw.drop_last().push(raw.last()));
    } else {
        assert(nick_chars(raw) =~= raw);
    }
}

/// Whatever word it is made of, a sanitised nick is legal.
pub proof fn sanitised_nick_is_legal(raw: Seq<char>)
    ensures
        legal_nick(sanitised(raw)),
{
    lemma_nick_chars(raw);
    let kept = nick_chars(raw);
    let led = lead(kept);
    assert forall|i: int| 0 <= i < led.len() implies is_nick_char(#[trigger] led[i]) by {
        if kept.len() > 0 && (is_digit(kept[0]) || kept[0] == '-') && i > 0 {
            assert(led[i] == kept[i - 1]);
        }
    }
}

/// A legal nick is kept as it is.
pub proof fn legal_nick_is_kept(nick: Seq<char>)
    requires
        legal_nick(nick),
    ensures
        sanitised(nick) == nick,
{
    lemma_nick_chars_kept(nick);
}

/// Sanitising a second time changes nothing.
pub proof fn sanitising_is_idempotent(raw: Seq<char>)
    ensures
        sanitised(sanitised(raw)) == sanitised(raw),
{
    sanitised_nick_is_legal(raw);
    legal_nick_is_kept(sanitised(raw));
}

fn legal_char(c: char) -> (r: bool)
    ensures
        r == is_nick_char(c),
{
    ('a' <= c && c <= 'z') || ('A' <= c && c <= 'Z') || ('0' <= c && c <= '9') || c == '-' || c
        == '_' || c == '[' || c == ']' || c == '\\' || c == '`' || c == '^' || c == '{' || c == '|'
        || c == '}'
}

/// An IRC-legal nick from a human word: keeps letters/digits and the
/// RFC-legal special characters, truncates, and never starts with a digit
/// or '-'.
pub fn sanitise_irc_nick(raw: &str) -> (r: String)
    ensures
        r@ == sanitised(raw@),
{
    let chars = chars_of(raw);
    let mut kept: Vec<char> = Vec::new();
    let mut i: usize = 0;
    assert(chars@.take(0) =~= Seq::<char>::empty());
    while i < chars.len()
        invariant
            i <= chars@.len(),
            chars@ == raw@,
            kept@ == nick_chars(chars@.take(i as int)),
        decreases chars@.len() - i,
    {
        assert(chars@.take(i + 1).drop_last() =~= chars@.take(i as int));
        if legal_char(chars[i]) {
            kept.push(chars[i]);
        }
        i += 1;
    }
    assert(chars@.take(i as int) =~= raw@);
    let ghost letters = kept@;
    if kept.len() == 0 {
        kept.push('_');
        assert(kept@ =~= seq!['_']);
    } else {
        let first = kept[0];
        if ('0' <= first && first <= '9') || first == '-' {
            kept.insert(0, '_');
            assert(kept@ =~= seq!['_'] + letters);
        }
    }
    if kept.len() > MAX_IRC_NICK_LEN {
        kept.truncate(MAX_IRC_NICK_LEN);
    }
    text_of(&kept)
}

/// The number of bytes of a character in UTF-8.
pub open spec fn char_bytes(c: char) -> nat {
    if (c as u32) < 0x80 {
        1
    } else if (c as u32) < 0x800 {
        2
    } else if (c as u32) < 0x10000 {
        3
    } else {
        4
    }
}

/// The number of bytes of a text in UTF-8.
pub open spec fn text_bytes(s: Seq<char>) -> nat
    decreases s.len(),
{
    if s.len() == 0 {
        0
    } else {
        text_bytes(s.drop_last()) + char_bytes(s.last())
    }
}

/// `nick` followed by as much of `rest` as it takes to reach the longest nick.
pub open spec fn fill(nick: Seq<char>, rest: Seq<char>) -> Seq<char>
    decreases rest.len(),
{
    if rest.len() == 0 || text_bytes(nick) >= MAX_IRC_NICK_LEN {
        nick
    } else {
        fill(nick.push(rest[0]), rest.drop_first())
    }
}

/// The part of a DID that tells it from others.
pub open spec fn did_suffix(did: Seq<char>) -> Seq<char> {
    if "did:ma:"@.is_prefix_of(did) {
        did.skip("did:ma:"@.len() as int)
    } else {
        did
    }
}

pub open spec fn fallback_nick(did: Seq<char>) -> Seq<char> {
    fill("ma-"@, did_suffix(did))
}

/// Deterministic nick from a bare DID, so an occupant that presented no nick
/// still joins the channel "as itself" (`ma-<did suffix>`).
pub fn did_fallback_nick(did: &str) -> (r: String)
    ensures
        r@ == fallback_nick(did@),
{
    let suffix = match after_prefix(did, "did:ma:") {
        Some(rest) => rest,
        None => did,
    };
    let chars = chars_of(suffix);
    let mut nick = "ma-".to_owned();
    let mut bytes: usize = 3;
    proof {
        reveal_strlit("ma-");
        reveal_with_fuel(text_bytes, 4);
        assert("ma-"@.drop_last().drop_last().drop_last() =~= Seq::<char>::empty());
        assert(text_bytes("ma-"@) == 3);
        assert(chars@.skip(0) =~= suffix@);
    }
    let mut i: usize = 0;
    while i < chars.len() && bytes < MAX_IRC_NICK_LEN
        invariant
            i <= chars@.len(),
            bytes == text_bytes(nick@),
            bytes < MAX_IRC_NICK_LEN + 4,
            fill("ma-"@, suffix@) == fill(nick@, chars@.skip(i as int)),
        decreases chars@.len() - i,
    {
        let c = chars[i];
        let ghost rest = chars@.skip(i as int);
        proof {
            assert(rest[0] == c);
            assert(rest.drop_first() =~= chars@.skip(i + 1));
            assert(nick@.push(c).drop_last() =~= nick@);
        }
        nick.push(c);
        let n: u32 = c as u32;
        bytes = bytes + if n < 0x80 {
            1
        } else if n < 0x800 {
            2
        } else if n < 0x10000 {
            3
        } else {
            4
        };
        i += 1;
    }
    nick
}

/// The nick word that a ctx presents: the ctx itself, unless it is blank or
/// structured data.
pub open spec fn nick_word(ctx: Seq<char>) -> Option<Seq<char>> {
    let word = trim(ctx);
    if word.len() > 0 && !begins_with(word, '{') {
        Some(word)
    } else {
        None
    }
}

pub fn presented_nick<'a>(ctx: &'a str) -> (r: Option<&'a str>)
    ensures
        lent(r) == nick_word(ctx@),
{
    let word = trimmed(ctx);
    if !word.is_empty() && !starts_with_char(word, '{') {
        Some(word)
    } else {
        None
    }
}

/// The nick for an occupant that presents `ctx`, if anything.
pub open spec fn desired_nick(ctx: Option<Seq<char>>, did: Seq<char>) -> Seq<char> {
    let word = match ctx {
        Some(ctx) => nick_word(ctx),
        None => None,
    };
    match word {
        Some(word) => sanitised(word),
        None => sanitised(fallback_nick(did)),
    }
}

/// The nick an occupant wants on the room's channel. The nick the actor
/// already presents wins; otherwise a DID-derived nick. All choices are
/// IRC-sanitised.
pub fn desired_irc_nick(presence_ctx: Option<&str>, did: &str) -> (r: String)
    ensures
        r@ == desired_nick(lent(presence_ctx), did@),
{
    if let Some(ctx) = presence_ctx {
        if let Some(word) = presented_nick(ctx) {
            return sanitise_irc_nick(word);
        }
    }
    let nick = did_fallback_nick(did);
    sanitise_irc_nick(nick.as_str())
}

/// The nick for an occupant of a room that has a default nick: the one it
/// presents, else the room's, else one derived from the DID.
pub open spec fn joining_nick(
    ctx: Seq<char>,
    room_nick: Seq<char>,
    did: Seq<char>,
) -> Seq<char> {
    match nick_word(ctx) {
        Some(_) => desired_nick(Some(ctx), did),
        None => desired_nick(Some(room_nick), did),
    }
}

pub fn joining_irc_nick(ctx: &str, room_nick: &str, did: &str) -> (r: String)
    ensures
        r@ == joining_nick(ctx@, room_nick@, did@),
{
    match presented_nick(ctx) {
        Some(_) => desired_irc_nick(Some(ctx), did),
        None => desired_irc_nick(Some(room_nick), did),
    }
}

/// The nick an occupant asks for can be accepted by a server.
pub proof fn joining_nick_is_legal(ctx: Seq<char>, room_nick: Seq<char>, did: Seq<char>)
    ensures
        legal_nick(joining_nick(ctx, room_nick, did)),
        legal_nick(desired_nick(Some(ctx), did)),
        legal_nick(desired_nick(None, did)),
{
    sanitised_nick_is_legal(fallback_nick(did));
    sanitised_nick_is_legal(trim(ctx));
    sanitised_nick_is_legal(trim(room_nick));
}

/// `n` underscores.
pub open spec fn underscores(n: nat) -> Seq<char> {
    Seq::new(n, |i: int| '_')
}

/// How many underscores the `attempt`th candidate carries.
pub open spec fn suffix_len(attempt: nat) -> nat {
    if attempt < MAX_NICK_ATTEMPTS {
        attempt
    } else {
        MAX_NICK_ATTEMPTS as nat
    }
}

/// The `attempt`th nick to try: the wanted one first, then the wanted one with
/// underscores at its end, shortened to make room for them.
pub open spec fn candidate(base: Seq<char>, attempt: nat) -> Seq<char> {
    if attempt == 0 {
        base
    } else {
        at_most(base, MAX_IRC_NICK_LEN - suffix_len(attempt)) + underscores(suffix_len(attempt))
    }
}

/// No candidate after the first is too long, and every candidate of a legal
/// nick is legal.
pub proof fn candidates_are_legal(base: Seq<char>, attempt: nat)
    ensures
        attempt > 0 ==> candidate(base, attempt).len() <= MAX_IRC_NICK_LEN,
        legal_nick(base) ==> legal_nick(candidate(base, attempt)),
{
    if legal_nick(base) && attempt > 0 {
        let nick = candidate(base, attempt);
        let kept = at_most(base, MAX_IRC_NICK_LEN - suffix_len(attempt));
        assert(kept.len() > 0);
        assert forall|i: int| 0 <= i < nick.len() implies is_nick_char(#[trigger] nick[i]) by {
            if i < kept.len() {
                assert(nick[i] == base[i]);
            }
        }
    }
}

/// The candidates of one wanted nick differ as long as none was shortened.
pub proof fn candidates_differ(base: Seq<char>, i: nat, j: nat)
    requires
        i < j <= MAX_NICK_ATTEMPTS,
        base.len() <= MAX_IRC_NICK_LEN - j,
    ensures
        candidate(base, i) != candidate(base, j),
{
    assert(candidate(base, j).len() == base.len() + j);
    assert(candidate(base, i).len() == base.len() + i);
}

pub fn nick_candidate(base: &str, attempt: usize) -> (r: String)
    ensures
        r@ == candidate(base@, attempt as nat),
{
    if attempt == 0 {
        return base.to_owned();
    }
    let count: usize = if attempt < MAX_NICK_ATTEMPTS {
        attempt
    } else {
        MAX_NICK_ATTEMPTS
    };
    let keep: usize = MAX_IRC_NICK_LEN - count;
    let mut nick = if base.unicode_len() > keep {
        assert(base@.take(keep as int) =~= base@.subrange(0, keep as int));
        base.substring_char(0, keep).to_owned()
    } else {
        base.to_owned()
    };
    let ghost kept = nick@;
    let mut i: usize = 0;
    while i < count
        invariant
            i <= count,
            nick@ =~= kept + underscores(i as nat),
        decreases count - i,
    {
        nick.push('_');
        i += 1;
    }
    nick
}

} // verus!
