//! The answers of the two endpoints of this core: the generic entity
//! endpoint, and the schema-mutation endpoint with its restart decision.
use vstd::prelude::*;
use vstd::string::StringExecFns;
use crate::definition::{DefinitionError, error_text};
use crate::supervisor::StoreError;

verus! {

/// A status code and a text body.
pub struct Reply {
    pub status: u16,
    pub body: String,
}

/// The reply of the schema-mutation endpoint, and whether the supervisor must
/// be sent a restart.
pub struct MutationReply {
    pub status: u16,
    pub body: String,
    pub restart: bool,
}

/// The fixed body of the generic entity endpoint.
pub open spec fn placeholder_body() -> Seq<char> {
    "Unknown handler"@
}

/// The body sent back when a definition cannot be read at all.
pub open spec fn malformed_text() -> Seq<char> {
    "malformed entity definition"@
}

/// The generic endpoint of a discovered entity: it accepts the request and
/// answers with a fixed body, storing nothing.
pub fn entity_reply() -> (r: Reply)
    ensures
        r.status == 200,
        r.body@ == placeholder_body(),
{
    Reply { status: 200, body: String::from_str("Unknown handler") }
}

/// The reply once the store has been asked to apply a statement: on success
/// the statement is echoed and a restart is due; on failure the store's
/// diagnostic is sent back and no restart happens.
pub fn mutation_reply(statement: String, applied: Result<(), StoreError>) -> (r: MutationReply)
    ensures
        r.restart <==> applied is Ok,
        applied is Ok ==> r.status == 200 && r.body@ == statement@,
        applied matches Err(e) ==> r.status == 500 && r.body@ == e.message@,
{
    match applied {
        Ok(()) => MutationReply { status: 200, body: statement, restart: true },
        Err(e) => MutationReply { status: 500, body: e.message, restart: false },
    }
}

/// The reply to a definition refused before reaching the store: a client
/// error, and no restart.
pub fn rejected_definition(e: DefinitionError) -> (r: MutationReply)
    ensures
        r.status == 400,
        r.body@ == error_text(e),
        !r.restart,
{
    MutationReply { status: 400, body: e.message(), restart: false }
}

/// The reply to a body that is not an entity definition: a client error, and
/// no restart.
pub fn malformed_definition() -> (r: MutationReply)
    ensures
        r.status == 400,
        r.body@ == malformed_text(),
        !r.restart,
{
    MutationReply { status: 400, body: String::from_str("malformed entity definition"), restart: false }
}

} // verus!
