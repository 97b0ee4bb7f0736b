//! Process-level vocabulary: the error taxonomy shared by every dispatch
//! path, and the dispatcher interface a running process exposes.

use crate::ids::Uuid;
use crate::util::RpcMethod;
use vstd::prelude::*;

verus! {

/// Everything that can go wrong while dispatching a call.
///
/// The first five variants are wire-stable: they travel between nodes as the
/// numeric codes given by [`DispatchError::code`] and must not be renumbered.
/// The rest only ever arise locally and cross the wire as the catch-all code.
#[derive(Clone, Copy, Debug, PartialEq, Eq, Structural)]
pub enum DispatchError {
    /// The target process is in neither the local table nor the remote cache.
    ProcessNotFound,
    /// No handler is installed for the requested method.
    MethodNotFound,
    /// No link to the target node exists.
    NodeNotFound,
    /// A payload could not be decoded.
    MessageFormat,
    /// The per-request deadline elapsed before a response arrived.
    Timeout,
    /// The connection to the remote mailbox went away mid-flight.
    MailboxRemote,
    /// A local mailbox went away mid-flight.
    MailboxLocal,
    /// The peer broke the framing rules (for instance a response carrying
    /// neither a body nor an error).
    Protocol,
    /// An unrecognised wire code.
    Other,
}

impl DispatchError {
    /// The numeric code this error travels under.
    pub fn code(&self) -> (r: i32)
        ensures
            r == error_code(*self),
    {
        match self {
            DispatchError::ProcessNotFound => 1,
            DispatchError::MethodNotFound => 2,
            DispatchError::NodeNotFound => 3,
            DispatchError::MessageFormat => 4,
            DispatchError::Timeout => 5,
            _ => 99,
        }
    }

    /// The error a received numeric code stands for.
    pub fn from_code(v: i32) -> (r: Self)
        ensures
            r == error_of_code(v),
    {
        match v {
            1 => DispatchError::ProcessNotFound,
            2 => DispatchError::MethodNotFound,
            3 => DispatchError::NodeNotFound,
            4 => DispatchError::MessageFormat,
            5 => DispatchError::Timeout,
            _ => DispatchError::Other,
        }
    }
}

/// The wire code of each error: the five routing and format errors have
/// stable small codes, everything else is the unspecified code 99.
pub open spec fn error_code(e: DispatchError) -> i32 {
    match e {
        DispatchError::ProcessNotFound => 1,
        DispatchError::MethodNotFound => 2,
        DispatchError::NodeNotFound => 3,
        DispatchError::MessageFormat => 4,
        DispatchError::Timeout => 5,
        _ => 99,
    }
}

/// The error read back from a wire code; codes outside the stable range come
/// back as `Other`.
pub open spec fn error_of_code(v: i32) -> DispatchError {
    if v == 1 {
        DispatchError::ProcessNotFound
    } else if v == 2 {
        DispatchError::MethodNotFound
    } else if v == 3 {
        DispatchError::NodeNotFound
    } else if v == 4 {
        DispatchError::MessageFormat
    } else if v == 5 {
        DispatchError::Timeout
    } else {
        DispatchError::Other
    }
}

/// The wire-stable errors survive a round trip through their code; every
/// other error degrades to `Other` on the way.
pub proof fn lemma_error_code_round_trip(e: DispatchError)
    ensures
        error_code(e) != 99 ==> error_of_code(error_code(e)) == e,
        error_code(e) == 99 ==> error_of_code(error_code(e)) == DispatchError::Other,
{
}

/// The method table of one locally running process: looks a numeric method
/// id up, decodes the payload, runs the handler and encodes the result.
///
/// The runtime implements this once per process kind and hands the registry
/// an instance at process start.
pub trait Dispatcher {
    fn dispatch(&mut self, method: u32, body: &[u8]) -> Result<Vec<u8>, DispatchError>;
}

/// Where a call through a process handle goes. Sending behaves the same
/// either way: the runtime delivers it and the caller sees one uniform
/// result and error surface.
#[derive(Debug, PartialEq, Eq)]
pub enum PidDelivery {
    /// The process runs here: hand the typed message straight to the
    /// mailbox the runtime knows under this token.
    Local { addr: u64 },
    /// The process is elsewhere: submit this serialized call to the
    /// process registry, which routes it by its directory.
    Remote(crate::MethodCall),
}

/// A handle to one process, local or remote. The identity stays valid
/// wherever the process lives; only the delivery path differs, chosen by
/// the variant.
#[derive(Clone, Copy, Debug, PartialEq, Eq, Structural)]
pub enum Pid {
    Local { id: Uuid, addr: u64 },
    Remote(Uuid),
}

impl Pid {
    /// A handle to a process known only by identity: remote delivery.
    pub fn from(id: Uuid) -> (r: Self)
        ensures
            r == Pid::Remote(id),
    {
        Pid::Remote(id)
    }

    /// Forgets the direct mailbox path: every later send goes through the
    /// registry.
    pub fn into_remote(self) -> (r: Self)
        ensures
            r == Pid::Remote(self.spec_id()),
    {
        match self {
            Pid::Local { id, .. } => Pid::Remote(id),
            Pid::Remote(id) => Pid::Remote(id),
        }
    }

    /// The mailbox token, if the process runs here.
    pub fn local_addr(&self) -> (r: Option<u64>)
        ensures
            match self {
                Pid::Local { addr, .. } => r == Some(*addr),
                Pid::Remote(_) => r is None,
            },
    {
        match self {
            Pid::Local { addr, .. } => Some(*addr),
            Pid::Remote(_) => None,
        }
    }

    /// The process's identity, wherever it lives.
    pub open spec fn spec_id(&self) -> Uuid {
        match self {
            Pid::Local { id, .. } => *id,
            Pid::Remote(id) => *id,
        }
    }

    /// The process's identity, wherever it lives.
    pub fn id(&self) -> (r: Uuid)
        ensures
            r == self.spec_id(),
    {
        match self {
            Pid::Local { id, .. } => *id,
            Pid::Remote(id) => *id,
        }
    }

    /// Routes a correlated call on method `M`: straight to the mailbox for
    /// a local handle, as a serialized registry submission for a remote
    /// one. Fails only when the message does not encode.
    pub fn send<M: RpcMethod>(&self, m: &M) -> (r: Result<PidDelivery, DispatchError>)
        ensures
            r matches Ok(d) ==> match self {
                Pid::Local { addr, .. } => d == PidDelivery::Local { addr: *addr },
                Pid::Remote(id) => d matches PidDelivery::Remote(c) && c.procid == Some(*id)
                    && c.method == M::spec_id(),
            },
            self matches Pid::Local { .. } ==> r is Ok,
    {
        match self {
            Pid::Local { addr, .. } => Ok(PidDelivery::Local { addr: *addr }),
            Pid::Remote(id) => match m.make_call(Some(*id)) {
                Ok(call) => Ok(PidDelivery::Remote(call)),
                Err(e) => Err(e),
            },
        }
    }

    /// Routes a fire-and-forget call on method `M`: the same path as
    /// [`Pid::send`], with no correlation set up and no result awaited.
    pub fn do_send<M: RpcMethod>(&self, m: &M) -> (r: Result<PidDelivery, DispatchError>)
        ensures
            r matches Ok(d) ==> match self {
                Pid::Local { addr, .. } => d == PidDelivery::Local { addr: *addr },
                Pid::Remote(id) => d matches PidDelivery::Remote(c) && c.procid == Some(*id)
                    && c.method == M::spec_id(),
            },
            self matches Pid::Local { .. } ==> r is Ok,
    {
        match self {
            Pid::Local { addr, .. } => Ok(PidDelivery::Local { addr: *addr }),
            Pid::Remote(id) => match m.make_call(Some(*id)) {
                Ok(call) => Ok(PidDelivery::Remote(call)),
                Err(e) => Err(e),
            },
        }
    }

    /// A type-erased handle carrying the same identity, with the direct
    /// path kept only for a local process.
    pub fn recipient(&self) -> (r: PidRecipient)
        ensures
            r.id == self.spec_id(),
            match self {
                Pid::Local { addr, .. } => r.local == Some(*addr),
                Pid::Remote(_) => r.local is None,
            },
    {
        match self {
            Pid::Local { id, addr } => PidRecipient { id: *id, local: Some(*addr) },
            Pid::Remote(id) => PidRecipient { id: *id, local: None },
        }
    }
}

/// A handle to one process when only the message type is known: the
/// identity, and the direct mailbox token if the process is local.
#[derive(Clone, Copy, Debug, PartialEq, Eq, Structural)]
pub struct PidRecipient {
    pub id: Uuid,
    pub local: Option<u64>,
}

impl PidRecipient {
    /// A recipient from just an identity: remote delivery.
    pub fn from_id(id: Uuid) -> (r: Self)
        ensures
            r.id == id,
            r.local is None,
    {
        PidRecipient { id, local: None }
    }

    /// Routes a correlated call on method `M`, exactly as a [`Pid`] with
    /// the same locality would.
    pub fn send<M: RpcMethod>(&self, m: &M) -> (r: Result<PidDelivery, DispatchError>)
        ensures
            r matches Ok(d) ==> match self.local {
                Some(addr) => d == PidDelivery::Local { addr },
                None => d matches PidDelivery::Remote(c) && c.procid == Some(self.id) && c.method
                    == M::spec_id(),
            },
            self.local is Some ==> r is Ok,
    {
        match self.local {
            Some(addr) => Ok(PidDelivery::Local { addr }),
            None => match m.make_call(Some(self.id)) {
                Ok(call) => Ok(PidDelivery::Remote(call)),
                Err(e) => Err(e),
            },
        }
    }

    /// Routes a fire-and-forget call on method `M`.
    pub fn do_send<M: RpcMethod>(&self, m: &M) -> (r: Result<PidDelivery, DispatchError>)
        ensures
            r matches Ok(d) ==> match self.local {
                Some(addr) => d == PidDelivery::Local { addr },
                None => d matches PidDelivery::Remote(c) && c.procid == Some(self.id) && c.method
                    == M::spec_id(),
            },
            self.local is Some ==> r is Ok,
    {
        match self.local {
            Some(addr) => Ok(PidDelivery::Local { addr }),
            None => match m.make_call(Some(self.id)) {
                Ok(call) => Ok(PidDelivery::Remote(call)),
                Err(e) => Err(e),
            },
        }
    }
}

/// What a remote request resolves to once the registry's answer comes
/// back to the caller: nothing delivered means the local mailbox vanished
/// mid-flight; a delivered error is surfaced as it is; a delivered body is
/// decoded as the method's own result. Local and remote callers thus see
/// one error surface.
pub fn resolve_remote<M: RpcMethod>(delivered: Option<Result<Vec<u8>, DispatchError>>) -> (r:
    Result<M::Output, DispatchError>)
    ensures
        delivered is None ==> r == Err::<M::Output, DispatchError>(DispatchError::MailboxLocal),
        delivered matches Some(d) ==> (d matches Err(e) ==> r == Err::<M::Output, DispatchError>(
            e,
        )),
{
    match delivered {
        None => Err(DispatchError::MailboxLocal),
        Some(Err(e)) => Err(e),
        Some(Ok(bytes)) => M::read_result(bytes.as_slice()),
    }
}

} // verus!
