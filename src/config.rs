//! Settings of a broker node and their defaults.
use vstd::prelude::*;

verus! {

/// Seconds a new master stays out of channel placement.
pub fn default_agent_warmup_secs() -> (r: u64)
    ensures
        r == 60,
{
    60
}

/// Milliseconds a read waits for events.
pub fn default_poll_duration() -> (r: u64)
    ensures
        r == 20_000,
{
    20_000
}

/// Where the management socket lives.
pub fn default_mng_socket_path() -> (r: String)
    ensures
        r@ == "/run/megaphone.sock"@,
{
    String::from_str("/run/megaphone.sock")
}

/// Where the public HTTP surface listens.
pub fn default_address() -> (r: String)
    ensures
        r@ == "0.0.0.0:3000"@,
{
    String::from_str("0.0.0.0:3000")
}

/// Where the sync service listens.
pub fn default_grpc_address() -> (r: String)
    ensures
        r@ == "0.0.0.0:3001"@,
{
    String::from_str("0.0.0.0:3001")
}

} // verus!
