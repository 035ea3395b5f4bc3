use vstd::prelude::*;

verus! {

/// An IPv4 host and a UDP port; two endpoints are equal when both are.
#[derive(Debug, Clone, Copy, PartialEq, Eq, Structural)]
pub struct Endpoint {
    pub host: u32,
    pub port: u16,
}

impl Endpoint {
    pub fn new(host: u32, port: u16) -> (r: Endpoint)
        ensures
            r.host == host,
            r.port == port,
    {
        Endpoint { host, port }
    }
}

} // verus!
