//! What a manager is started with.

use vstd::prelude::*;

use crate::text::joined;

verus! {

/// Where the broker is, if nothing else is said.
pub const DEFAULT_NATS_URL: &'static str = "nats://127.0.0.1:4222";

/// How often tokens are renewed, in seconds, if nothing else is said.
pub const DEFAULT_CONCORD_TOKEN_REFRESH_SECONDS: u64 = 15;

/// How often the state is read anew, in seconds, if nothing else is said.
pub const DEFAULT_STATE_RECONCILE_SECONDS: u64 = 300;

/// The name of a manager that was given none: one for each host.
pub open spec fn host_manager_id(hostname: Seq<char>) -> Seq<char> {
    "mirabox-rust-"@ + hostname
}

/// The name of a manager: the one that it was given, else one for the host.
pub fn manager_id_or_default(given: Option<String>, hostname: &str) -> (r: String)
    ensures
        r@ == match given {
            Some(manager_id) => manager_id@,
            None => host_manager_id(hostname@),
        },
{
    match given {
        Some(manager_id) => manager_id,
        None => joined("mirabox-rust-", hostname),
    }
}

/// Managers of different hosts have different names, if they were given none.
pub proof fn hosts_have_their_own_managers(a: Seq<char>, b: Seq<char>)
    requires
        host_manager_id(a) == host_manager_id(b),
    ensures
        a == b,
{
    let n = "mirabox-rust-"@.len() as int;
    assert(host_manager_id(a).skip(n) =~= a);
    assert(host_manager_id(b).skip(n) =~= b);
}

/// A manager that was given no name is named after its host.
pub proof fn managers_are_named_after_their_host(hostname: Seq<char>)
    ensures
        host_manager_id(hostname).len() == 13 + hostname.len(),
        host_manager_id(hostname).take(13) == "mirabox-rust-"@,
        host_manager_id(hostname).skip(13) == hostname,
{
    reveal_strlit("mirabox-rust-");
    assert(host_manager_id(hostname).take(13) =~= "mirabox-rust-"@);
    assert(host_manager_id(hostname).skip(13) =~= hostname);
}

/// Tokens are renewed four times a minute, and the state is read anew twelve times an hour, if nothing
/// else is said; the broker is then on the same host.
pub proof fn defaults_are_kept()
    ensures
        4 * DEFAULT_CONCORD_TOKEN_REFRESH_SECONDS == 60,
        12 * DEFAULT_STATE_RECONCILE_SECONDS == 60 * 60,
        DEFAULT_NATS_URL@ == "nats://127.0.0.1:4222"@,
{
}

} // verus!
