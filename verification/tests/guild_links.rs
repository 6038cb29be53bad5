use trophy_bot::guild_links::{
    accept_outcome, effective_guild, request_outcome, request_precheck, AcceptError, RequestError,
};

#[test]
fn a_guild_cannot_link_to_itself() {
    assert_eq!(request_precheck(7, 7), Err(RequestError::SelfLink));
    assert_eq!(request_precheck(7, 8), Ok(()));
}

#[test]
fn a_second_request_from_a_linked_guild_is_refused() {
    assert_eq!(request_outcome(true), Err(RequestError::AlreadyLinked));
    assert_eq!(request_outcome(false), Ok(()));
}

#[test]
fn accepting_nothing_pending_is_refused() {
    assert_eq!(accept_outcome(0), Err(AcceptError::NoSuchRequest));
    assert_eq!(accept_outcome(1), Ok(()));
}

#[test]
fn unlinked_guilds_operate_on_themselves() {
    assert_eq!(effective_guild(None, 42), 42);
    assert_eq!(effective_guild(Some(7), 42), 7);
}
