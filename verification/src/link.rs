//! The per-connection link: one of these owns each established connection
//! to a peer node. It assigns correlation ids to outbound requests, keeps
//! the table of waiters those requests left behind, answers pings, routes
//! inbound requests towards the registry or the controller, and matches
//! inbound responses back to their waiters.
//!
//! The runtime around it owns the socket: it feeds every decoded frame to
//! [`NodeLink::handle_frame`] and performs the returned action.

use crate::ids::Uuid;
use crate::process::{error_code, error_of_code, DispatchError};
use crate::table::Table;
use crate::wire::{corr_key, Meta, Net, NetView, Request, RequestView, Response, ResponseView};
use crate::{Broadcast, MethodCall};
use vstd::prelude::*;

verus! {

/// What the runtime must do with one inbound frame.
#[derive(Debug, PartialEq, Eq)]
pub enum LinkAction {
    /// Put this frame on the wire (the pong answering a ping).
    Write(Net),
    /// Hand this call to the process registry for the addressed process;
    /// answer over the wire if a correlation id is present.
    DispatchProcess { procid: Uuid, method: u32, body: Vec<u8>, correlation: Option<i64> },
    /// Hand this unaddressed call to the node controller's global handler
    /// table; answer over the wire if a correlation id is present.
    DispatchGlobal { method: u32, body: Vec<u8>, correlation: Option<i64> },
    /// Resolve the waiter known under this token with this outcome.
    Complete { waiter: u64, outcome: Result<Vec<u8>, DispatchError> },
}

/// The wrapped successor of a correlation id: the counter rolls over
/// rather than stopping. Reuse of an id still in flight is accepted as
/// astronomically unlikely at realistic request volumes.
pub open spec fn wrapping_inc(c: i64) -> i64 {
    if c == i64::MAX {
        i64::MIN
    } else {
        (c + 1) as i64
    }
}

/// What a response resolves to for its waiting caller: the error code if
/// one is present, otherwise the body, and a protocol violation if a peer
/// sent neither.
pub open spec fn outcome_of_response(r: ResponseView) -> Result<Seq<u8>, DispatchError> {
    match r.error {
        Some(e) => Err(error_of_code(e)),
        None => match r.body {
            Some(b) => Ok(b),
            None => Err(DispatchError::Protocol),
        },
    }
}

/// One established connection to one peer node.
pub struct NodeLink {
    id: Uuid,
    correlation_counter: i64,
    running: Table<u64>,
}

impl NodeLink {
    /// The peer's identity, fixed at the handshake.
    pub closed spec fn peer(&self) -> Uuid {
        self.id
    }

    /// The last correlation id handed out.
    pub closed spec fn counter(&self) -> i64 {
        self.correlation_counter
    }

    /// The outstanding waiters: one per correlation id awaiting a response,
    /// keyed by the id's wire value.
    pub closed spec fn waiters(&self) -> Map<u128, u64> {
        self.running@
    }

    /// A fresh link to the peer that the handshake identified.
    pub fn new(id: Uuid) -> (r: Self)
        ensures
            r.peer() == id,
            r.counter() == 0,
            r.waiters() == Map::<u128, u64>::empty(),
    {
        NodeLink { id, correlation_counter: 0, running: Table::new() }
    }

    /// The peer's identity, as the handshake fixed it.
    pub fn peer_id(&self) -> (r: Uuid)
        ensures
            r == self.peer(),
    {
        self.id
    }

    /// The handshake frame a node opens every connection with.
    pub fn handshake_frame(my_id: Uuid) -> (r: Net)
        ensures
            r@ == NetView::Meta(Meta { nodeid: my_id }),
    {
        Net::Meta(Meta { nodeid: my_id })
    }

    /// Reads the peer's identity out of its handshake frame; anything but a
    /// handshake frame at that point breaks the protocol.
    pub fn accept_handshake(msg: &Net) -> (r: Result<Uuid, DispatchError>)
        ensures
            match msg@ {
                NetView::Meta(m) => r == Ok::<Uuid, DispatchError>(m.nodeid),
                _ => r == Err::<Uuid, DispatchError>(DispatchError::Protocol),
            },
    {
        match msg {
            Net::Meta(m) => Ok(m.nodeid),
            _ => Err(DispatchError::Protocol),
        }
    }

    /// The periodic liveness frame.
    pub fn ping_frame() -> (r: Net)
        ensures
            r@ == NetView::Ping,
    {
        Net::Ping
    }

    /// Starts an outbound correlated request: takes the next correlation
    /// id, registers the caller's waiter under it, and returns the id with
    /// the frame to write.
    pub fn begin_request(&mut self, m: &MethodCall, waiter: u64) -> (r: (i64, Net))
        ensures
            final(self).peer() == old(self).peer(),
            final(self).counter() == wrapping_inc(old(self).counter()),
            r.0 == final(self).counter(),
            final(self).waiters() == old(self).waiters().insert(corr_key(r.0), waiter),
            r.1@ == NetView::Request(
                RequestView {
                    procid: m.procid,
                    correlation: Some(r.0),
                    method: m.method,
                    body: m.body@,
                },
            ),
    {
        let corr: i64 = if self.correlation_counter == i64::MAX {
            i64::MIN
        } else {
            self.correlation_counter + 1
        };
        self.correlation_counter = corr;
        self.running.insert(crate::wire::i64_to_wire(corr) as u128, waiter);
        let req = Request {
            procid: m.procid,
            correlation: Some(corr),
            method: m.method,
            body: m.body.clone(),
        };
        (corr, Net::Request(req))
    }

    /// The frame for a fire-and-forget call: no correlation id, no waiter.
    pub fn broadcast_frame(&self, b: &Broadcast) -> (r: Net)
        ensures
            r@ == NetView::Request(
                RequestView {
                    procid: b.procid,
                    correlation: None,
                    method: b.method,
                    body: b.body@,
                },
            ),
    {
        Net::Request(
            Request { procid: b.procid, correlation: None, method: b.method, body: b.body.clone() },
        )
    }

    /// Removes and returns the waiter under a correlation id, if one is
    /// still outstanding: the response path and the timeout path both
    /// resolve a waiter through here, so whichever comes second finds
    /// nothing.
    pub fn take_waiter(&mut self, corr: i64) -> (r: Option<u64>)
        ensures
            final(self).peer() == old(self).peer(),
            final(self).counter() == old(self).counter(),
            final(self).waiters() == old(self).waiters().remove(corr_key(corr)),
            match r {
                Some(w) => old(self).waiters().contains_key(corr_key(corr)) && w == old(
                    self,
                ).waiters()[corr_key(corr)],
                None => !old(self).waiters().contains_key(corr_key(corr)),
            },
    {
        let key = crate::wire::i64_to_wire(corr) as u128;
        let r = match self.running.get(key) {
            Some(w) => Some(*w),
            None => None,
        };
        self.running.remove(key);
        r
    }

    /// Empties the waiter table at connection teardown, handing back every
    /// outstanding waiter so the runtime can fail each with a
    /// connection-closed error instead of leaving its caller hanging.
    pub fn fail_all(&mut self) -> (r: Vec<(u128, u64)>)
        ensures
            final(self).peer() == old(self).peer(),
            final(self).counter() == old(self).counter(),
            final(self).waiters() == Map::<u128, u64>::empty(),
            crate::table::map_of(r@) == old(self).waiters(),
            crate::table::nodup_keys(r@),
    {
        self.running.take_entries()
    }

    /// The response frame answering an inbound correlated request: the
    /// result's body on success, its numeric code on error.
    pub fn make_response_frame(corr: i64, res: Result<Vec<u8>, DispatchError>) -> (r: Net)
        ensures
            crate::wire::net_wf(r@),
            r@ == NetView::Response(
                ResponseView {
                    correlation: corr,
                    body: match res {
                        Ok(b) => Some(b@),
                        Err(_) => None,
                    },
                    error: match res {
                        Ok(_) => None,
                        Err(e) => Some(error_code(e)),
                    },
                },
            ),
    {
        match res {
            Ok(b) => Net::Response(Response { correlation: corr, body: Some(b), error: None }),
            Err(e) => Net::Response(
                Response { correlation: corr, body: None, error: Some(e.code()) },
            ),
        }
    }

    /// Handles one inbound frame, for the life of the connection: a ping
    /// is answered, a pong and a late handshake are ignored, a request is
    /// routed by its target, and a response resolves its waiter — or is
    /// discarded if none is left, which legitimately happens after a
    /// timeout already resolved it.
    pub fn handle_frame(&mut self, msg: Net) -> (r: Option<LinkAction>)
        ensures
            final(self).peer() == old(self).peer(),
            final(self).counter() == old(self).counter(),
            match msg@ {
                NetView::Meta(_) => r is None && final(self).waiters() == old(self).waiters(),
                NetView::Ping => final(self).waiters() == old(self).waiters() && (r matches Some(
                    LinkAction::Write(p),
                ) && p@ == NetView::Pong),
                NetView::Pong => r is None && final(self).waiters() == old(self).waiters(),
                NetView::Request(req) => final(self).waiters() == old(self).waiters() && (match req.procid {
                    Some(p) => if p.0 != 0 {
                        r matches Some(
                            LinkAction::DispatchProcess { procid, method, body, correlation },
                        ) && procid == p && method == req.method && body@ == req.body
                            && correlation == req.correlation
                    } else {
                        r matches Some(LinkAction::DispatchGlobal { method, body, correlation })
                            && method == req.method && body@ == req.body && correlation
                            == req.correlation
                    },
                    None => r matches Some(LinkAction::DispatchGlobal { method, body, correlation })
                        && method == req.method && body@ == req.body && correlation
                        == req.correlation,
                }),
                NetView::Response(res) => final(self).waiters() == old(self).waiters().remove(
                    corr_key(res.correlation),
                ) && (if old(self).waiters().contains_key(corr_key(res.correlation)) {
                    r matches Some(LinkAction::Complete { waiter, outcome }) && waiter == old(
                        self,
                    ).waiters()[corr_key(res.correlation)] && (match (outcome, outcome_of_response(
                        res,
                    )) {
                        (Ok(b), Ok(bs)) => b@ == bs,
                        (Err(e1), Err(e2)) => e1 == e2,
                        _ => false,
                    })
                } else {
                    r is None
                }),
            },
    {
        match msg {
            Net::Meta(_) => None,
            Net::Ping => Some(LinkAction::Write(Net::Pong)),
            Net::Pong => None,
            Net::Request(req) => {
                let unaddressed = match &req.procid {
                    Some(p) => p.is_nil(),
                    None => true,
                };
                if unaddressed {
                    Some(
                        LinkAction::DispatchGlobal {
                            method: req.method,
                            body: req.body,
                            correlation: req.correlation,
                        },
                    )
                } else {
                    let procid = match &req.procid {
                        Some(p) => *p,
                        None => Uuid(0),
                    };
                    Some(
                        LinkAction::DispatchProcess {
                            procid,
                            method: req.method,
                            body: req.body,
                            correlation: req.correlation,
                        },
                    )
                }
            },
            Net::Response(res) => {
                match self.take_waiter(res.correlation) {
                    Some(waiter) => {
                        let outcome = match res.error {
                            Some(e) => Err(DispatchError::from_code(e)),
                            None => match res.body {
                                Some(b) => Ok(b),
                                None => Err(DispatchError::Protocol),
                            },
                        };
                        Some(LinkAction::Complete { waiter, outcome })
                    },
                    None => None,
                }
            },
        }
    }
}

/// Local and remote calls are transparent: what the wire hands back to
/// the waiting caller is exactly what the callee's dispatcher produced, as
/// a local call would see it — the same body on success, and the same
/// error after its trip through the wire-stable code, under which every
/// routing and format error survives unchanged and only the local-only
/// errors collapse to the unspecified one.
pub proof fn lemma_local_remote_transparency(corr: i64, res: Result<Seq<u8>, DispatchError>)
    ensures
        outcome_of_response(
            ResponseView {
                correlation: corr,
                body: match res {
                    Ok(b) => Some(b),
                    Err(_) => None,
                },
                error: match res {
                    Ok(_) => None,
                    Err(e) => Some(error_code(e)),
                },
            },
        ) == (match res {
            Ok(b) => Ok::<Seq<u8>, DispatchError>(b),
            Err(e) => Err::<Seq<u8>, DispatchError>(error_of_code(error_code(e))),
        }),
        res matches Err(e) ==> (error_code(e) != 99 ==> error_of_code(error_code(e)) == e),
{
    match res {
        Ok(_) => {},
        Err(e) => {
            crate::process::lemma_error_code_round_trip(e);
        },
    }
}

/// A waiter resolves at most once: whichever of the response path and the
/// timeout path removes it first, the waiter table afterwards holds nothing
/// under that correlation id, so the second comer — a duplicate response,
/// or a response arriving after the timeout already fired — finds no waiter
/// and is discarded by `handle_frame` rather than delivered again.
pub proof fn lemma_waiter_resolves_at_most_once(w: Map<u128, u64>, corr: i64)
    ensures
        !w.remove(corr_key(corr)).contains_key(corr_key(corr)),
{
}

} // verus!
