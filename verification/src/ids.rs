//! Addresses that are drawn at random.

use vstd::prelude::*;
use vstd::string::*;

verus! {

/// How many characters of a fragment are drawn.
pub const ID_LEN: usize = 10;

/// The characters of drawn ids: letters, digits, `_` and `-`.
pub open spec fn is_id_char(c: char) -> bool {
    ||| 'a' <= c && c <= 'z'
    ||| 'A' <= c && c <= 'Z'
    ||| '0' <= c && c <= '9'
    ||| c == '_'
    ||| c == '-'
}

/// Whether `s` is made of id characters alone.
pub open spec fn is_id(s: Seq<char>) -> bool {
    forall|i: int| 0 <= i < s.len() ==> is_id_char(#[trigger] s[i])
}

/// `nanoid::format` with the default generator and the URL-safe alphabet: a
/// text of `size` characters of that alphabet. Which ones is left to chance.
#[verifier::external_body]
fn draw(size: usize) -> (r: String)
    requires
        size <= 1024,
    ensures
        r@.len() == size,
        is_id(r@),
{
    nanoid::format(nanoid::rngs::default, &nanoid::alphabet::SAFE, size)
}

/// Whether `s` is an address drawn for an exit.
pub open spec fn is_exit_fragment(s: Seq<char>) -> bool {
    exists|id: Seq<char>| is_id(id) && id.len() == ID_LEN && s == #[trigger] ("#exit-"@ + id)
}

/// Whether `s` is an address drawn for a room.
pub open spec fn is_room_fragment(s: Seq<char>) -> bool {
    exists|id: Seq<char>| is_id(id) && id.len() == ID_LEN && s == #[trigger] ("#room-"@ + id)
}

/// Whether `s` is an address drawn for a room, or a longer one.
pub open spec fn is_room_address(s: Seq<char>) -> bool {
    exists|id: Seq<char>| is_id(id) && id.len() >= ID_LEN && s == #[trigger] ("#room-"@ + id)
}

/// How many characters ids are made of.
pub const ID_CHARS: u8 = 64;

/// The number of an id character.
pub open spec fn id_index(c: char) -> int {
    if 'a' <= c && c <= 'z' {
        c as u32 - 'a' as u32
    } else if 'A' <= c && c <= 'Z' {
        26 + (c as u32 - 'A' as u32)
    } else if '0' <= c && c <= '9' {
        52 + (c as u32 - '0' as u32)
    } else if c == '_' {
        62
    } else {
        63
    }
}

/// The id character with this number.
pub fn id_char(n: u8) -> (r: char)
    requires
        n < ID_CHARS,
    ensures
        is_id_char(r),
        id_index(r) == n,
{
    if n < 26 {
        (97u8 + n) as char
    } else if n < 52 {
        (65u8 + (n - 26)) as char
    } else if n < 62 {
        (48u8 + (n - 52)) as char
    } else if n == 62 {
        '_'
    } else {
        '-'
    }
}

pub fn draw_exit_fragment() -> (r: String)
    ensures
        is_exit_fragment(r@),
{
    let id = draw(ID_LEN);
    "#exit-".to_owned().concat(id.as_str())
}

pub fn draw_room_fragment() -> (r: String)
    ensures
        is_room_fragment(r@),
{
    let id = draw(ID_LEN);
    "#room-".to_owned().concat(id.as_str())
}

/// A room address stays one when its id is lengthened.
pub proof fn lemma_lengthened(fragment: Seq<char>)
    requires
        is_room_address(fragment),
    ensures
        is_room_address(fragment.push('_')),
{
    let id = choose|id: Seq<char>|
        is_id(id) && id.len() >= ID_LEN && fragment == #[trigger] ("#room-"@ + id);
    let longer = id.push('_');
    assert forall|i: int| 0 <= i < longer.len() implies is_id_char(#[trigger] longer[i]) by {
        if i < id.len() {
            assert(is_id_char(id[i]));
        }
    }
    assert(fragment.push('_') =~= "#room-"@ + longer);
}

/// A drawn address is `#room-` or `#exit-` and ten letters, digits, dashes or
/// underscores.
pub proof fn drawn_addresses_have_ten_characters(s: Seq<char>, id: Seq<char>)
    requires
        forall|i: int|
            0 <= i < id.len() ==> (('a' <= #[trigger] id[i] && id[i] <= 'z') || ('A' <= id[i]
                && id[i] <= 'Z') || ('0' <= id[i] && id[i] <= '9') || id[i] == '_' || id[i] == '-'),
    ensures
        is_room_fragment("#room-"@ + id) <==> id.len() == 10,
        is_exit_fragment("#exit-"@ + id) <==> id.len() == 10,
        is_room_fragment(s) ==> "#room-"@.is_prefix_of(s) && s.len() == "#room-"@.len() + 10,
        is_exit_fragment(s) ==> "#exit-"@.is_prefix_of(s) && s.len() == "#exit-"@.len() + 10,
{
    assert(is_id(id));
    if is_room_fragment("#room-"@ + id) {
        let other = choose|other: Seq<char>|
            is_id(other) && other.len() == ID_LEN && "#room-"@ + id == #[trigger] ("#room-"@
                + other);
        assert(("#room-"@ + id).len() == "#room-"@.len() + other.len());
    }
    if is_exit_fragment("#exit-"@ + id) {
        let other = choose|other: Seq<char>|
            is_id(other) && other.len() == ID_LEN && "#exit-"@ + id == #[trigger] ("#exit-"@
                + other);
        assert(("#exit-"@ + id).len() == "#exit-"@.len() + other.len());
    }
    if is_room_fragment(s) {
        let other = choose|other: Seq<char>|
            is_id(other) && other.len() == ID_LEN && s == #[trigger] ("#room-"@ + other);
        assert(s.subrange(0, "#room-"@.len() as int) =~= "#room-"@);
    }
    if is_exit_fragment(s) {
        let other = choose|other: Seq<char>|
            is_id(other) && other.len() == ID_LEN && s == #[trigger] ("#exit-"@ + other);
        assert(s.subrange(0, "#exit-"@.len() as int) =~= "#exit-"@);
    }
}

} // verus!
