//! The connector that carries the node agent's HTTP over vsock.

use vstd::prelude::*;

verus! {

/// `vsock::VMADDR_CID_HOST`, the context id of the host, which the node
/// agent listens on. Claimed: it is 2, as the `libc` source defines it.
#[verifier::external_body]
fn vmaddr_cid_host() -> (cid: u32)
    ensures
        cid == 2,
{
    vsock::VMADDR_CID_HOST
}

/// The context id of the host, where the node agent listens.
pub fn default_node_agent_vsock_cid() -> (cid: u32)
    ensures
        cid == 2,
{
    vmaddr_cid_host()
}

/// Connects to the node agent over vsock, for plain HTTP only.
#[derive(Debug, Clone, Copy, Default)]
pub struct VsockConnector;

impl VsockConnector {
    /// The vsock address, (context id, port), that a connection for
    /// `scheme` to `port` goes to; only the "http" scheme is served.
    pub fn target(&self, scheme: &String, port: u16) -> (r: Result<(u32, u32), String>)
        ensures
            r is Ok <==> scheme@ == "http"@,
            r matches Ok((cid, p)) ==> cid == 2 && p == port,
            r matches Err(m) ==> m@ == "VsockConnector only supports http scheme"@,
    {
        let http = "http".to_owned();
        if *scheme != http {
            return Err("VsockConnector only supports http scheme".to_owned());
        }
        Ok((default_node_agent_vsock_cid(), port as u32))
    }
}

} // verus!
