//! `/invite` link.

use vstd::prelude::*;

use crate::text::{chars_to_string, decimal, push_decimal, push_str};

verus! {

/// Permission bits requested on invite (Send Messages + Attach Files).
pub const INVITE_PERMISSIONS: u64 = 34816;

/// The OAuth2 invite URL for an application id.
pub open spec fn invite_url_spec(client_id: u64) -> Seq<char> {
    "https://discord.com/oauth2/authorize?client_id="@ + decimal(client_id as nat) + "&permissions="@
        + decimal(INVITE_PERMISSIONS as nat) + "&scope=applications.commands%20bot"@
}

/// Builds the OAuth2 invite URL for the given application/client id.
pub fn invite_url(client_id: u64) -> (url: String)
    ensures
        url@ == invite_url_spec(client_id),
{
    let mut v: Vec<char> = Vec::new();
    push_str(&mut v, "https://discord.com/oauth2/authorize?client_id=");
    push_decimal(client_id, &mut v);
    push_str(&mut v, "&permissions=");
    push_decimal(INVITE_PERMISSIONS, &mut v);
    push_str(&mut v, "&scope=applications.commands%20bot");
    assert(v@ =~= invite_url_spec(client_id));
    chars_to_string(&v)
}

} // verus!
