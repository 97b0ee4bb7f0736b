//! A distributed actor runtime core: process identities that stay valid
//! across nodes, a length-prefixed binary wire protocol, correlation-based
//! request/response tracking, a replicated process directory, and an
//! addressing layer that hides whether a process is local or remote.
//!
//! The state machines and the wire codec live here, fully verified; the
//! sockets, timers and mailboxes that drive them are ordinary runtime code
//! built around this crate.

use vstd::prelude::*;

pub mod ids;
pub mod link;
pub mod memkv;
pub mod node;
pub mod process;
pub mod proto;
pub mod registry;
pub mod table;
pub mod util;
pub mod wire;

use crate::ids::Uuid;

verus! {

/// A fire-and-forget call: no correlation is set up and no response is
/// awaited. The nil or absent process id means the call is unaddressed and
/// goes to whatever global handler the receiving node has installed.
#[derive(Clone, Debug, PartialEq, Eq)]
pub struct Broadcast {
    pub procid: Option<Uuid>,
    pub method: u32,
    pub body: Vec<u8>,
}

impl Broadcast {
    pub fn make(procid: Option<Uuid>, method: u32, body: Vec<u8>) -> (r: Self)
        ensures
            r.procid == procid,
            r.method == method,
            r.body == body,
    {
        Broadcast { procid, method, body }
    }
}

/// A call that expects an answer: the sending link assigns a correlation id,
/// registers a waiter and races the response against a timeout.
#[derive(Clone, Debug, PartialEq, Eq)]
pub struct MethodCall {
    pub procid: Option<Uuid>,
    pub method: u32,
    pub body: Vec<u8>,
}

/// A message bound for one specific peer node, to be routed through the link
/// the controller holds for that node.
pub struct NodeDispatch<M> {
    pub nodeid: Uuid,
    pub inner: M,
}

} // verus!
