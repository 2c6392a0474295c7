use vstd::prelude::*;

verus! {

/// A network address: a host and a port. The forwarder never looks inside
/// one; it hands it on to whoever binds or dials.
#[derive(Clone, Copy, Debug, PartialEq, Eq)]
pub enum Endpoint {
    V4 { octets: [u8; 4], port: u16 },
    V6 { segments: [u16; 8], port: u16, flowinfo: u32, scope_id: u32 },
}

/// What a forwarder is started with, fixed for its whole life: where it
/// listens, and the one remote that every inbound connection is forwarded
/// to.
#[derive(Clone, Copy, Debug, PartialEq, Eq)]
pub struct Config {
    pub listen: Endpoint,
    pub remote: Endpoint,
}

} // verus!
