//! The attestation client: what it asks the node agent for, and the
//! decisions it takes between the outside steps (device requests, hashing,
//! signing, network exchanges) that its caller performs.

pub mod attest;
pub mod certificate;
pub mod error;
pub mod utils;
pub mod vsock_connector;

use vstd::prelude::*;

use self::error::Error;

verus! {

/// The attestation flow of a bare-metal AMD SEV-SNP guest.
pub struct BaremetalSevSnp;

/// The attestation flow of a bare-metal Intel TDX guest.
pub struct BaremetalTdx;

/// How many times the node agent is tried before giving up.
pub const MAX_RETRIES: usize = 10;

/// What to do after an attempt to reach the node agent.
#[derive(Debug, Clone, Copy, PartialEq, Eq, Structural)]
pub enum ConnectStep {
    /// The node agent answered: use the client.
    Connected,
    /// Wait the retry delay, then try again.
    WaitAndRetry,
    /// Wait the retry delay, then give up.
    WaitAndGiveUp,
}

/// The step after attempt number `attempt` (from 1) to reach the node
/// agent, which answered or not. Every failed attempt is followed by the
/// retry delay; after the last one the client gives up.
pub fn connect_step(attempt: usize, reached: bool) -> (s: ConnectStep)
    requires
        1 <= attempt <= MAX_RETRIES,
    ensures
        reached ==> s == ConnectStep::Connected,
        !reached && attempt < MAX_RETRIES ==> s == ConnectStep::WaitAndRetry,
        !reached && attempt == MAX_RETRIES ==> s == ConnectStep::WaitAndGiveUp,
{
    if reached {
        ConnectStep::Connected
    } else if attempt < MAX_RETRIES {
        ConnectStep::WaitAndRetry
    } else {
        ConnectStep::WaitAndGiveUp
    }
}

/// The error when the node agent never answered.
pub fn unreachable_node_agent() -> (e: Error)
    ensures
        e matches Error::NACliErr(m) && m@
            == "failed to reach node agent after 10 attempts. Is it installed correctly?"@,
{
    Error::NACliErr("failed to reach node agent after 10 attempts. Is it installed correctly?".to_owned())
}

} // verus!
