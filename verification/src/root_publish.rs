//! Root-manifest persistence.
//!
//! The runtime publishes its in-memory root (rooms, their exits and props) as
//! a single DAG-CBOR node, periodically and on shutdown. Each successful
//! publication updates `root_cid` in the configuration, pins the new CID, and
//! unpins the previous one so the local store only keeps the live head.

use vstd::prelude::*;
use vstd::string::*;

use crate::collections::held;
use crate::config::{
    read_number, read_string, settings, string_setting, write_string, SettingView,
};
use crate::text::{same_text, trim, trimmed};

verus! {

pub const DEFAULT_ROOT_PUBLISH_INTERVAL_SECS: u64 = 300;

/// The CID of the manifest that was published last, if one was.
pub open spec fn root_cid_of(extra: Map<Seq<char>, SettingView>) -> Option<Seq<char>> {
    if extra.contains_key("root_cid"@) {
        match extra["root_cid"@].string {
            Some(cid) => if trim(cid).len() > 0 {
                Some(trim(cid))
            } else {
                None
            },
            None => None,
        }
    } else {
        None
    }
}

pub fn root_cid_setting(extra: &serde_yaml::Mapping) -> (r: Option<String>)
    ensures
        held(r) == root_cid_of(settings(*extra)),
{
    match read_string(extra, "root_cid") {
        Some(cid) => {
            let cid = trimmed(cid.as_str());
            if cid.is_empty() {
                None
            } else {
                Some(cid.to_owned())
            }
        },
        None => None,
    }
}

/// How many seconds lie between two publications.
pub open spec fn interval_of(extra: Map<Seq<char>, SettingView>) -> u64 {
    if extra.contains_key("root_publish_interval_secs"@) {
        match extra["root_publish_interval_secs"@].number {
            Some(secs) => if secs > 0 {
                secs
            } else {
                DEFAULT_ROOT_PUBLISH_INTERVAL_SECS
            },
            None => DEFAULT_ROOT_PUBLISH_INTERVAL_SECS,
        }
    } else {
        DEFAULT_ROOT_PUBLISH_INTERVAL_SECS
    }
}

pub fn root_publish_interval(extra: &serde_yaml::Mapping) -> (r: u64)
    ensures
        r == interval_of(settings(*extra)),
        r > 0,
{
    match read_number(extra, "root_publish_interval_secs") {
        Some(secs) => if secs > 0 {
            secs
        } else {
            DEFAULT_ROOT_PUBLISH_INTERVAL_SECS
        },
        None => DEFAULT_ROOT_PUBLISH_INTERVAL_SECS,
    }
}

/// The CID that is live no longer once `new_cid` was published.
pub open spec fn superseded(extra: Map<Seq<char>, SettingView>, new_cid: Seq<char>) -> Option<
    Seq<char>,
> {
    match root_cid_of(extra) {
        Some(old_cid) => if old_cid == new_cid {
            None
        } else {
            Some(old_cid)
        },
        None => None,
    }
}

/// The CID to unpin once `new_cid` was published: the previous one, unless it is
/// the same.
pub fn superseded_cid(extra: &serde_yaml::Mapping, new_cid: &str) -> (r: Option<String>)
    ensures
        held(r) == superseded(settings(*extra), new_cid@),
{
    match root_cid_setting(extra) {
        Some(old_cid) => if same_text(old_cid.as_str(), new_cid) {
            None
        } else {
            Some(old_cid)
        },
        None => None,
    }
}

/// Note the CID that was published. Returns whether the configuration changed
/// and is to be saved.
pub fn persist_root_cid(extra: &mut serde_yaml::Mapping, root_cid: &str) -> (r: bool)
    ensures
        r == (root_cid_of(settings(*old(extra))) != Some(root_cid@)),
        r ==> settings(*final(extra)) == settings(*old(extra)).insert(
            "root_cid"@,
            string_setting(root_cid@),
        ),
        !r ==> *final(extra) == *old(extra),
{
    if let Some(current) = root_cid_setting(extra) {
        if same_text(current.as_str(), root_cid) {
            return false;
        }
    }
    write_string(extra, "root_cid", root_cid);
    true
}

/// After a CID was noted, it is the one that the next start restores from.
pub proof fn noted_cid_is_restored(extra: Map<Seq<char>, SettingView>, cid: Seq<char>)
    requires
        cid.len() > 0,
        trim(cid) == cid,
    ensures
        root_cid_of(extra.insert("root_cid"@, string_setting(cid))) == Some(cid),
{
}

/// What is unpinned after a publication is what the next start would have restored
/// from without it, and never what was just published. Once the new CID was noted,
/// nothing is left to unpin.
pub proof fn live_head_is_never_unpinned(
    extra: Map<Seq<char>, SettingView>,
    old_cid: Seq<char>,
    new_cid: Seq<char>,
)
    ensures
        superseded(extra, new_cid) == Some(old_cid) <==> root_cid_of(extra) == Some(old_cid)
            && old_cid != new_cid,
        superseded(extra, new_cid) != Some(new_cid),
        new_cid.len() > 0 && trim(new_cid) == new_cid ==> superseded(
            extra.insert("root_cid"@, string_setting(new_cid)),
            new_cid,
        ) is None,
{
}

/// The CID to restore from is the string under `root_cid` without outer spaces,
/// if anything is left of it.
pub proof fn cid_is_read_from_its_key(extra: Map<Seq<char>, SettingView>, cid: Seq<char>)
    ensures
        !extra.contains_key("root_cid"@) ==> root_cid_of(extra) is None,
        extra.contains_key("root_cid"@) && extra["root_cid"@].string is None ==> root_cid_of(
            extra,
        ) is None,
        extra.contains_key("root_cid"@) && extra["root_cid"@].string == Some(cid) && trim(
            cid,
        ).len() == 0 ==> root_cid_of(extra) is None,
        extra.contains_key("root_cid"@) && extra["root_cid"@].string == Some(cid) && trim(
            cid,
        ).len() > 0 ==> root_cid_of(extra) == Some(trim(cid)),
{
}

/// The root is published as often as the setting says, and every five minutes
/// where it says nothing, or nothing usable.
pub proof fn interval_is_read_from_its_key(extra: Map<Seq<char>, SettingView>)
    ensures
        ({
            let key = "root_publish_interval_secs"@;
            let set = extra.contains_key(key) && extra[key].number is Some && extra[key].number->0
                > 0;
            &&& set ==> Some(interval_of(extra)) == extra[key].number
            &&& !set ==> interval_of(extra) == 300
        }),
{
}

} // verus!
