//! The checks before the runtime's DID document is published.

use vstd::prelude::*;
use vstd::string::*;

use crate::collections::texts;
use crate::error::Error;
use crate::text::same_text;

verus! {

/// Refuses a document that is not the runtime's own.
pub fn check_document_did(document_did: &str, runtime_did: &str) -> (r: Result<(), Error>)
    ensures
        match r {
            Ok(_) => document_did@ == runtime_did@,
            Err(error) => document_did@ != runtime_did@ && error@ == "generated document DID '"@
                + document_did@ + "' does not match runtime DID '"@ + runtime_did@ + "'"@,
        },
{
    if same_text(document_did, runtime_did) {
        Ok(())
    } else {
        Err(
            Error::new(
                "generated document DID '".to_owned().concat(document_did).concat(
                    "' does not match runtime DID '",
                ).concat(runtime_did).concat("'"),
            ),
        )
    }
}

/// The parts of the name of the key under which the document is published.
pub fn key_parts(slug: &str) -> (r: Vec<String>)
    ensures
        texts(r@) == seq!["runtime"@, slug@],
{
    let mut parts: Vec<String> = Vec::new();
    parts.push("runtime".to_owned());
    parts.push(slug.to_owned());
    assert(texts(parts@) =~= seq!["runtime"@, slug@]);
    parts
}

} // verus!
