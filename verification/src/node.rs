//! The node controller: one per runtime instance. It owns the set of links
//! to peer nodes, routes node-addressed calls to the right link, keeps the
//! table of global handlers for unaddressed calls, and tells interested
//! listeners when peers come and go.
//!
//! The runtime around it owns the sockets: it performs the connects and
//! accepts, runs each link, and holds the real handler and listener objects
//! behind the tokens this state machine stores.

use crate::ids::Uuid;
use crate::process::DispatchError;
use crate::table::{map_of, nodup_keys, Table};
use crate::util::{RegisterRecipient, RpcMethod};
use crate::{Broadcast, MethodCall, NodeDispatch};
use vstd::prelude::*;

verus! {

/// A node's startup configuration: its identity and the address its
/// listener binds. The runtime fills the identity with a freshly generated
/// one at startup.
#[derive(Clone, Debug)]
pub struct NodeConfig {
    pub id: Uuid,
    pub listen: String,
}

/// A handle naming one peer node. Calls through it are routed by the
/// controller to that node's link and answered by whatever global handler
/// the peer has installed for the method.
pub struct NodeId(pub Uuid);

impl NodeId {
    /// Packages a correlated call on method `M` bound for this node.
    pub fn send<M: RpcMethod>(&self, m: &M) -> (r: Result<
        NodeDispatch<MethodCall>,
        DispatchError,
    >)
        ensures
            r matches Ok(d) ==> d.nodeid == self.0 && d.inner.procid is None && d.inner.method
                == M::spec_id(),
    {
        match m.make_call(None) {
            Ok(inner) => Ok(NodeDispatch { nodeid: self.0, inner }),
            Err(e) => Err(e),
        }
    }

    /// Packages a fire-and-forget call on method `M` bound for this node.
    pub fn do_send<M: RpcMethod>(&self, m: &M) -> (r: Result<
        NodeDispatch<Broadcast>,
        DispatchError,
    >)
        ensures
            r matches Ok(d) ==> d.nodeid == self.0 && d.inner.procid is None && d.inner.method
                == M::spec_id(),
    {
        match m.make_broadcast(None) {
            Ok(inner) => Ok(NodeDispatch { nodeid: self.0, inner }),
            Err(e) => Err(e),
        }
    }
}

/// A connection came up or went down; delivered to every status listener.
#[derive(Clone, Debug)]
pub enum NodeStatus {
    Connected(Uuid),
    Disconnected(Uuid),
}

/// Asks the controller to open an outbound connection to this address.
pub struct Connect {
    pub addr: String,
}

/// Asks the controller for the identities of every connected peer.
pub struct ListNodes;

/// A message as it arrived from a peer node, tagged with the sender's
/// identity.
pub struct FromNode<M> {
    pub node_id: Uuid,
    pub inner: M,
}

/// A node-wide handler for one unaddressed method: the runtime implements
/// it over a real mailbox and registers it under a token.
pub trait CallHandler {
    fn handle(&mut self, node_id: Uuid, data: &[u8]) -> Result<Vec<u8>, DispatchError>;
}

/// Installs a global handler for one method id. The handler itself lives
/// with the runtime under the given token.
pub struct RegisterGlobalHandler {
    pub method: u32,
    pub handler: u64,
}

impl RegisterGlobalHandler {
    /// A registration for handlers that want the calling node's identity.
    pub fn with_nodeinfo<M: RpcMethod>(handler: u64) -> (r: Self)
        ensures
            r.method == M::spec_id(),
            r.handler == handler,
    {
        RegisterGlobalHandler { method: M::method_id(), handler }
    }

    /// A registration for a node-wide handler of method `M`.
    pub fn new<M: RpcMethod>(handler: u64) -> (r: Self)
        ensures
            r.method == M::spec_id(),
            r.handler == handler,
    {
        RegisterGlobalHandler { method: M::method_id(), handler }
    }
}

/// The per-node connection and dispatch state.
pub struct NodeController {
    links: Table<u64>,
    dispatch: Table<u64>,
    status_listeners: Table<u64>,
}

impl NodeController {
    /// The connected peers: node identity to the runtime's link token.
    pub closed spec fn links(&self) -> Map<u128, u64> {
        self.links@
    }

    /// The global handlers: method id to the runtime's handler token.
    /// At most one per method; the last registration won.
    pub closed spec fn handlers(&self) -> Map<u128, u64> {
        self.dispatch@
    }

    /// The status listeners: listener identity to the runtime's token.
    pub closed spec fn listeners(&self) -> Map<u128, u64> {
        self.status_listeners@
    }

    pub fn new() -> (r: Self)
        ensures
            r.links() == Map::<u128, u64>::empty(),
            r.handlers() == Map::<u128, u64>::empty(),
            r.listeners() == Map::<u128, u64>::empty(),
    {
        NodeController {
            links: Table::new(),
            dispatch: Table::new(),
            status_listeners: Table::new(),
        }
    }

    /// A connection to `node` is established: remember its link, replacing
    /// any stale one, and hand back every listener to notify.
    pub fn handle_connected(&mut self, node: Uuid, link: u64) -> (r: Vec<(u128, u64)>)
        ensures
            final(self).links() == old(self).links().insert(node.0, link),
            final(self).handlers() == old(self).handlers(),
            final(self).listeners() == old(self).listeners(),
            nodup_keys(r@),
            map_of(r@) == old(self).listeners(),
    {
        self.links.insert(node.0, link);
        self.status_listeners.entries()
    }

    /// The connection to `node` is gone: forget its link and hand back
    /// every listener to notify.
    pub fn handle_disconnected(&mut self, node: Uuid) -> (r: Vec<(u128, u64)>)
        ensures
            final(self).links() == old(self).links().remove(node.0),
            final(self).handlers() == old(self).handlers(),
            final(self).listeners() == old(self).listeners(),
            nodup_keys(r@),
            map_of(r@) == old(self).listeners(),
    {
        self.links.remove(node.0);
        self.status_listeners.entries()
    }

    /// The link that carries traffic for `node`: absent exactly when no
    /// connection to that node exists, the routine not-found outcome.
    pub fn send_to_node(&self, node: Uuid) -> (r: Result<u64, DispatchError>)
        ensures
            r matches Ok(link) ==> self.links().contains_key(node.0) && link
                == self.links()[node.0],
            r is Err ==> !self.links().contains_key(node.0) && r == Err::<u64, DispatchError>(
                DispatchError::NodeNotFound,
            ),
    {
        match self.links.get(node.0) {
            Some(link) => Ok(*link),
            None => Err(DispatchError::NodeNotFound),
        }
    }

    /// Every connected peer with its link token, for a broadcast: failures
    /// on individual links are not surfaced to the broadcaster.
    pub fn all_links(&self) -> (r: Vec<(u128, u64)>)
        ensures
            nodup_keys(r@),
            map_of(r@) == self.links(),
    {
        self.links.entries()
    }

    /// The identities of every connected peer.
    pub fn list_nodes(&self, _msg: ListNodes) -> (r: Vec<u128>)
        ensures
            forall|i: int| 0 <= i < r@.len() ==> self.links().contains_key(r@[i]),
            forall|k: u128| self.links().contains_key(k) ==> r@.contains(k),
            forall|i: int, j: int| 0 <= i < j < r@.len() ==> r@[i] != r@[j],
    {
        self.links.keys()
    }

    /// Installs a global handler for a method id; a second registration
    /// for the same id silently replaces the first.
    pub fn register_global_handler(&mut self, msg: RegisterGlobalHandler)
        ensures
            final(self).links() == old(self).links(),
            final(self).listeners() == old(self).listeners(),
            final(self).handlers() == old(self).handlers().insert(
                msg.method as u128,
                msg.handler,
            ),
    {
        self.dispatch.insert(msg.method as u128, msg.handler);
    }

    /// The handler for an unaddressed call: absent exactly when no handler
    /// is installed for the method.
    pub fn resolve_global(&self, method: u32) -> (r: Result<u64, DispatchError>)
        ensures
            r matches Ok(h) ==> self.handlers().contains_key(method as u128) && h
                == self.handlers()[method as u128],
            r is Err ==> !self.handlers().contains_key(method as u128) && r == Err::<
                u64,
                DispatchError,
            >(DispatchError::MethodNotFound),
    {
        match self.dispatch.get(method as u128) {
            Some(h) => Ok(*h),
            None => Err(DispatchError::MethodNotFound),
        }
    }

    /// Subscribes a listener to connection status events, under a fresh
    /// identity the runtime chose.
    pub fn register_status_listener(&mut self, id: Uuid, msg: RegisterRecipient) -> (r: Uuid)
        ensures
            r == id,
            final(self).links() == old(self).links(),
            final(self).handlers() == old(self).handlers(),
            final(self).listeners() == old(self).listeners().insert(id.0, msg.0),
    {
        self.status_listeners.insert(id.0, msg.0);
        id
    }

    /// Drops a listener whose delivery failed: its mailbox is gone, so it
    /// is pruned rather than retried.
    pub fn remove_status_listener(&mut self, id: Uuid)
        ensures
            final(self).links() == old(self).links(),
            final(self).handlers() == old(self).handlers(),
            final(self).listeners() == old(self).listeners().remove(id.0),
    {
        self.status_listeners.remove(id.0);
    }
}

} // verus!
