//! Cross-guild link decisions: a linked guild mirrors at most one source,
//! and only once the source accepted; an unlinked guild operates on itself.

use vstd::prelude::*;

verus! {

/// Everything that can make `/link request` refuse.
#[derive(Debug, Clone, Copy, PartialEq, Eq, Structural)]
pub enum RequestError {
    /// A guild cannot link to itself.
    SelfLink,
    /// This guild is already the linked side of a pending or accepted link
    /// (one source at a time).
    AlreadyLinked,
}

/// Everything that can make `/link accept` refuse.
#[derive(Debug, Clone, Copy, PartialEq, Eq, Structural)]
pub enum AcceptError {
    /// No pending request from the linked guild to the source.
    NoSuchRequest,
}

/// The check made before a link request touches the database.
pub fn request_precheck(source_guild_id: i64, linked_guild_id: i64) -> (r: Result<(), RequestError>)
    ensures
        r is Err <==> source_guild_id == linked_guild_id,
        r is Err ==> r == Err::<(), RequestError>(RequestError::SelfLink),
{
    if source_guild_id == linked_guild_id {
        Err(RequestError::SelfLink)
    } else {
        Ok(())
    }
}

/// The outcome of inserting a request row: a unique-index violation means
/// the linked guild already has a link.
pub fn request_outcome(unique_violation: bool) -> (r: Result<(), RequestError>)
    ensures
        unique_violation ==> r == Err::<(), RequestError>(RequestError::AlreadyLinked),
        !unique_violation ==> r is Ok,
{
    if unique_violation {
        Err(RequestError::AlreadyLinked)
    } else {
        Ok(())
    }
}

/// Accepting touches only still-pending rows: no row updated means there
/// was no such pending request (accepting twice is refused, not repeated).
pub fn accept_outcome(rows_affected: u64) -> (r: Result<(), AcceptError>)
    ensures
        rows_affected > 0 ==> r is Ok,
        rows_affected == 0 ==> r == Err::<(), AcceptError>(AcceptError::NoSuchRequest),
{
    if rows_affected > 0 {
        Ok(())
    } else {
        Err(AcceptError::NoSuchRequest)
    }
}

/// The guild a command run in `own_guild_id` operates on: the accepted
/// source if there is one, else the guild itself.
pub fn effective_guild(accepted_source: Option<i64>, own_guild_id: i64) -> (g: i64)
    ensures
        g == match accepted_source {
            Some(source) => source,
            None => own_guild_id,
        },
{
    match accepted_source {
        Some(source) => source,
        None => own_guild_id,
    }
}

} // verus!
