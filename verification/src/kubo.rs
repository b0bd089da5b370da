//! The requests to Kubo's HTTP API by which the root manifest is stored and
//! fetched: `dag/put`, `dag/get`, and `pin/rm`.

use vstd::prelude::*;
use vstd::string::*;

use crate::collections::held;
use crate::error::{outcome, Error};

verus! {

/// `s` without the `/`s at its end.
pub open spec fn without_slashes(s: Seq<char>) -> Seq<char>
    decreases s.len(),
{
    if s.len() > 0 && s.last() == '/' {
        without_slashes(s.drop_last())
    } else {
        s
    }
}

/// The address of an API command.
pub fn api_url(kubo_url: &str, command: &str) -> (r: String)
    ensures
        r@ == without_slashes(kubo_url@) + "/api/v0/"@ + command@,
{
    let mut n = kubo_url.unicode_len();
    assert(kubo_url@.take(n as int) =~= kubo_url@);
    while n > 0 && kubo_url.get_char(n - 1) == '/'
        invariant
            n <= kubo_url@.len(),
            without_slashes(kubo_url@) == without_slashes(kubo_url@.take(n as int)),
        decreases n,
    {
        assert(kubo_url@.take(n as int).drop_last() =~= kubo_url@.take(n - 1));
        n -= 1;
    }
    assert(kubo_url@.take(n as int) =~= kubo_url@.subrange(0, n as int));
    kubo_url.substring_char(0, n).to_owned().concat("/api/v0/").concat(command)
}

/// The CID in the answer to `dag/put`, which comes under `Cid` or under `cid`.
pub fn put_cid(cid_upper: Option<String>, cid: Option<String>, body: &str) -> (r: Result<
    String,
    Error,
>)
    ensures
        outcome(r) == (match (held(cid_upper), held(cid)) {
            (Some(cid), _) => Ok::<Seq<char>, Seq<char>>(cid),
            (None, Some(cid)) => Ok(cid),
            (None, None) => Err("missing CID in dag/put response: "@ + body@),
        }),
{
    match cid_upper {
        Some(cid) => Ok(cid),
        None => match cid {
            Some(cid) => Ok(cid),
            None => Err(
                Error::new("missing CID in dag/put response: ".to_owned().concat(body)),
            ),
        },
    }
}

/// The slashes at the end of an address are dropped, all of them and no other.
pub proof fn final_slashes_are_dropped(s: Seq<char>)
    ensures
        without_slashes(s.push('/')) == without_slashes(s),
        s.len() > 0 && s.last() != '/' ==> without_slashes(s) == s,
        s.len() == 0 ==> without_slashes(s).len() == 0,
{
    assert(s.push('/').drop_last() =~= s);
}

} // verus!
