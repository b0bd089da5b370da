//! The transport ACL: who may use which capability.

use vstd::prelude::*;
use vstd::string::*;

use crate::text::{begins_with, first_at};

verus! {

#[verifier::external_type_specification]
#[verifier::external_body]
pub struct ExCapabilityEntry(ma_core::CapabilityEntry);

/// What an ACL entry grants.
pub enum Grant {
    Deny,
    Allow(Set<Seq<char>>),
}

/// The entries of a `ma_core::AclMap`, by their principals.
pub uninterp spec fn acl_entries(acl: ma_core::AclMap) -> Map<Seq<char>, Grant>;

/// The principal that an entry is looked up for: a DID without its fragment, or
/// any other name as it is.
pub open spec fn principal(caller: Seq<char>) -> Seq<char> {
    if "did:"@.is_prefix_of(caller) {
        caller.take(first_at(caller, '#'))
    } else {
        caller
    }
}

/// Whether an entry grants a capability, by its name or by `*`.
pub open spec fn grants(entry: Grant, capability: Seq<char>) -> bool {
    match entry {
        Grant::Deny => false,
        Grant::Allow(capabilities) => capabilities.contains(capability) || capabilities.contains(
            "*"@,
        ),
    }
}

/// Whether `caller` has a capability: the principal's own entry decides; without
/// one, that of all local entities (`#`) for a local entity; without that, the
/// one for everybody (`*`).
pub open spec fn permits(
    entries: Map<Seq<char>, Grant>,
    caller: Seq<char>,
    capability: Seq<char>,
) -> bool {
    let who = principal(caller);
    if entries.contains_key(who) {
        grants(entries[who], capability)
    } else if begins_with(who, '#') && entries.contains_key("#"@) {
        grants(entries["#"@], capability)
    } else {
        entries.contains_key("*"@) && grants(entries["*"@], capability)
    }
}

/// `ma_core::check_cap`: succeeds exactly where the entries of the ACL permit
/// the capability.
#[verifier::external_body]
fn check_capability(acl: &ma_core::AclMap, caller: &str, capability: &str) -> (r: bool)
    ensures
        r == permits(acl_entries(*acl), caller@, capability@),
{
    ma_core::check_cap(acl, caller, capability).is_ok()
}

/// Whether the transport ACL lets `did` use a capability.
pub fn is_allowed(acl: &ma_core::AclMap, did: &str, capability: &str) -> (r: bool)
    ensures
        r == permits(acl_entries(*acl), did@, capability@),
{
    check_capability(acl, did, capability)
}

/// A principal that is denied has no capability, whatever everybody has.
pub proof fn denied_principal_has_nothing(
    entries: Map<Seq<char>, Grant>,
    caller: Seq<char>,
    capability: Seq<char>,
)
    requires
        entries.contains_key(principal(caller)),
        entries[principal(caller)] == Grant::Deny,
    ensures
        !permits(entries, caller, capability),
{
}

/// Who has no entry of any kind has no capability.
pub proof fn no_entry_means_denied(
    entries: Map<Seq<char>, Grant>,
    caller: Seq<char>,
    capability: Seq<char>,
)
    requires
        !entries.contains_key(principal(caller)),
        !entries.contains_key("#"@),
        !entries.contains_key("*"@),
    ensures
        !permits(entries, caller, capability),
{
}

/// The entry of a principal decides alone: by the capability's name or by `*`. A
/// DID is looked up without its fragment.
pub proof fn own_entry_decides(
    entries: Map<Seq<char>, Grant>,
    did: Seq<char>,
    fragment: Seq<char>,
    capability: Seq<char>,
    granted: Set<Seq<char>>,
)
    requires
        "did:"@.is_prefix_of(did),
        !did.contains('#'),
        entries.contains_key(did),
        entries[did] == Grant::Allow(granted),
    ensures
        permits(entries, did, capability) <==> granted.contains(capability) || granted.contains(
            "*"@,
        ),
        permits(entries, did + seq!['#'] + fragment, capability) <==> granted.contains(capability)
            || granted.contains("*"@),
{
    let url = did + seq!['#'] + fragment;
    crate::text::lemma_first_at_is(did, '#');
    crate::text::lemma_first_at_is(url, '#');
    assert(did.take(first_at(did, '#')) =~= did);
    assert(url[did.len() as int] == '#');
    if first_at(url, '#') < did.len() {
        assert(did[first_at(url, '#')] == '#');
    }
    assert(url.take(first_at(url, '#')) =~= did);
    assert("did:"@.is_prefix_of(url)) by {
        let n = "did:"@.len() as int;
        assert(url.subrange(0, n) =~= did.subrange(0, n));
    }
}

/// Without an entry of its own, a local entity has what all local entities have,
/// and everybody else, or a local entity where those have no entry, what
/// everybody has.
pub proof fn shared_entries_decide_for_the_rest(
    entries: Map<Seq<char>, Grant>,
    caller: Seq<char>,
    capability: Seq<char>,
)
    requires
        !"did:"@.is_prefix_of(caller),
        !entries.contains_key(caller),
    ensures
        caller.len() > 0 && caller[0] == '#' && entries.contains_key("#"@) ==> (permits(
            entries,
            caller,
            capability,
        ) <==> grants(entries["#"@], capability)),
        !(caller.len() > 0 && caller[0] == '#' && entries.contains_key("#"@))
            && entries.contains_key("*"@) ==> (permits(entries, caller, capability) <==> grants(
            entries["*"@],
            capability,
        )),
        grants(Grant::Deny, capability) == false,
{
}

} // verus!
