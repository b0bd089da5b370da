//! What `dig` is asked to make.

use vstd::prelude::*;
use vstd::string::*;

use crate::collections::{borrow_texts, copy_option, held, str_texts};
use crate::error::{outcome, Error};
use crate::text::{
    cut_once, same_text, split_at_each, split_on, split_once, split_words, starts_with, trim,
    trimmed, underscores_to_spaces, unescape, words,
};

verus! {

/// What a `dig` command asks for.
#[derive(Debug)]
pub struct RoomSpec {
    pub label: String,
    pub description: String,
    /// An existing room to link to instead of creating a new one. When set,
    /// this is a full DID-URL in another runtime (`did:ma:...#fragment`).
    pub target: Option<String>,
}

/// What a `RoomSpec` holds.
#[verifier::ext_equal]
pub struct SpecView {
    pub label: Seq<char>,
    pub description: Seq<char>,
    pub target: Option<Seq<char>>,
}

impl View for RoomSpec {
    type V = SpecView;

    open spec fn view(&self) -> SpecView {
        SpecView {
            label: self.label@,
            description: self.description@,
            target: held(self.target),
        }
    }
}

impl Clone for RoomSpec {
    fn clone(&self) -> (r: RoomSpec)
        ensures
            r@ == self@,
    {
        RoomSpec {
            label: self.label.clone(),
            description: self.description.clone(),
            target: copy_option(&self.target),
        }
    }
}

/// The shape of a `dig … to` target: a full DID-URL with exactly one fragment,
/// which is not empty.
pub open spec fn valid_dig_target(did: Seq<char>) -> bool {
    let parts = split_on(did, '#');
    &&& "did:"@.is_prefix_of(did)
    &&& parts.len() == 2
    &&& parts[0].len() > 0
    &&& parts[1].len() > 0
}

/// Validate a `dig … to` target's shape. A second `#` (for example appending
/// `#concourse` to a full room DID-URL that already carries its own fragment)
/// is rejected here so a malformed target is never stored as an exit that the
/// wire layer can only fail to deliver to later.
pub fn is_valid_dig_target(did: &str) -> (r: bool)
    ensures
        r == valid_dig_target(did@),
{
    if !starts_with(did, "did:") {
        return false;
    }
    let parts = split_at_each(did, '#');
    proof {
        if parts@.len() == 2 {
            assert(split_on(did@, '#')[0] == parts@[0]@);
            assert(split_on(did@, '#')[1] == parts@[1]@);
        }
    }
    parts.len() == 2 && !parts[0].as_str().is_empty() && !parts[1].as_str().is_empty()
}

/// The option keys that belong to a room's IRC binding.
pub open spec fn is_irc_key(key: Seq<char>) -> bool {
    ||| key == "server"@
    ||| key == "nick"@
    ||| key == "join"@
    ||| key == "connect"@
    ||| key == "disconnect"@
    ||| key == "net"@
    ||| key == "pass"@
}

/// The description and the target after the options `rest`, read from left to
/// right; a later option replaces an earlier one of its kind.
pub open spec fn dig_options(
    rest: Seq<Seq<char>>,
    description: Seq<char>,
    target: Option<Seq<char>>,
) -> Result<(Seq<char>, Option<Seq<char>>), Seq<char>>
    decreases rest.len(),
{
    if rest.len() == 0 {
        Ok((description, target))
    } else if rest[0] == "to"@ {
        if rest.len() == 1 {
            Err("dig to requires a DID-URL after 'to'"@)
        } else if !valid_dig_target(rest[1]) {
            Err("dig to requires a full DID-URL (did:ma:...#fragment)"@)
        } else {
            dig_options(rest.skip(2), description, Some(rest[1]))
        }
    } else {
        match cut_once(rest[0], ':') {
            None => Err(
                "invalid dig token '"@ + rest[0] + "', expected key:value or 'to <did>'"@,
            ),
            Some((key, value)) => if key.len() == 0 || value.len() == 0 {
                Err("invalid dig token '"@ + rest[0] + "', key and value are required"@)
            } else if key == "description"@ || key == "desc"@ {
                dig_options(rest.skip(1), unescape(value), target)
            } else if is_irc_key(key) {
                Err(
                    "dig does not configure IRC; use :irc-server, :irc-channel, and :irc-connect inside the room"@,
                )
            } else {
                Err("unsupported dig key '"@ + key + "' (supported: description/desc)"@)
            },
        }
    }
}

/// What the words of a `dig` command ask for, or why they are refused.
pub open spec fn dig_spec(tokens: Seq<Seq<char>>) -> Result<SpecView, Seq<char>> {
    if tokens.len() == 0 {
        Err("dig requires an entity name"@)
    } else {
        match dig_options(tokens.skip(1), Seq::empty(), None) {
            Err(error) => Err(error),
            Ok((description, target)) => if target is Some && description.len() > 0 {
                Err("description only applies when digging a new room"@)
            } else {
                Ok(SpecView { label: trim(tokens[0]), description, target })
            },
        }
    }
}

fn is_irc_option(key: &str) -> (r: bool)
    ensures
        r == is_irc_key(key@),
{
    same_text(key, "server") || same_text(key, "nick") || same_text(key, "join") || same_text(
        key,
        "connect",
    ) || same_text(key, "disconnect") || same_text(key, "net") || same_text(key, "pass")
}

impl RoomSpec {
    pub fn from_dig(input: &str) -> (r: Result<RoomSpec, Error>)
        ensures
            outcome(r) == dig_spec(words(input@)),
    {
        let tokens = split_words(input);
        let borrowed = borrow_texts(&tokens);
        RoomSpec::from_tokens(borrowed.as_slice())
    }

    pub fn from_tokens(tokens: &[&str]) -> (r: Result<RoomSpec, Error>)
        ensures
            outcome(r) == dig_spec(str_texts(tokens@)),
    {
        let ghost all = str_texts(tokens@);
        if tokens.len() == 0 {
            return Err(Error::of("dig requires an entity name"));
        }
        let name = tokens[0];
        let mut description = String::new();
        let mut target: Option<String> = None;
        let mut i: usize = 1;
        while i < tokens.len()
            invariant
                1 <= i <= tokens@.len(),
                all == str_texts(tokens@),
                dig_options(all.skip(1), Seq::empty(), None) == dig_options(
                    all.skip(i as int),
                    description@,
                    held(target),
                ),
            decreases tokens@.len() - i,
        {
            let token = tokens[i];
            let ghost rest = all.skip(i as int);
            proof {
                assert(rest[0] == token@);
                assert(rest.skip(1) =~= all.skip(i + 1));
            }
            if same_text(token, "to") {
                if i + 1 >= tokens.len() {
                    return Err(Error::of("dig to requires a DID-URL after 'to'"));
                }
                let did = tokens[i + 1];
                proof {
                    assert(rest[1] == did@);
                    assert(rest.skip(2) =~= all.skip(i + 2));
                }
                if !is_valid_dig_target(did) {
                    return Err(Error::of("dig to requires a full DID-URL (did:ma:...#fragment)"));
                }
                target = Some(did.to_owned());
                i += 2;
                continue ;
            }
            match split_once(token, ':') {
                None => {
                    return Err(
                        Error::new(
                            "invalid dig token '".to_owned().concat(token).concat(
                                "', expected key:value or 'to <did>'",
                            ),
                        ),
                    );
                },
                Some((key, value)) => {
                    if key.is_empty() || value.is_empty() {
                        return Err(
                            Error::new(
                                "invalid dig token '".to_owned().concat(token).concat(
                                    "', key and value are required",
                                ),
                            ),
                        );
                    }
                    if same_text(key, "description") || same_text(key, "desc") {
                        description = underscores_to_spaces(value);
                    } else if is_irc_option(key) {
                        return Err(
                            Error::of(
                                "dig does not configure IRC; use :irc-server, :irc-channel, and :irc-connect inside the room",
                            ),
                        );
                    } else {
                        return Err(
                            Error::new(
                                "unsupported dig key '".to_owned().concat(key).concat(
                                    "' (supported: description/desc)",
                                ),
                            ),
                        );
                    }
                },
            }
            i += 1;
        }
        if target.is_some() && !description.as_str().is_empty() {
            return Err(Error::of("description only applies when digging a new room"));
        }
        // A room is labelled by the plain name the digger typed.
        Ok(RoomSpec { label: trimmed(name).to_owned(), description, target })
    }
}

} // verus!
