//! Link, controller and addressing behaviour: correlation tracking, the
//! dispatch tables, and end-to-end calls over a simulated wire.

use quix::ids::Uuid;
use quix::link::{LinkAction, NodeLink};
use quix::memkv::{first_found, Get, Key, LocalRead, MemKv, Value, Write};
use quix::node::{NodeController, NodeId, RegisterGlobalHandler};
use quix::process::{
    resolve_remote, DispatchError, Dispatcher, Pid, PidDelivery, PidRecipient,
};
use quix::proto::{ProcessList, Update};
use quix::registry::{ProcessRegistry, Register, RouteDecision};
use quix::util::{uuid, RegisterRecipient, RpcMethod};
use quix::wire::{Net, NetCodec, Request, Response};
use quix::MethodCall;

#[test]
fn error_codes_are_wire_stable() {
    assert_eq!(DispatchError::ProcessNotFound.code(), 1);
    assert_eq!(DispatchError::MethodNotFound.code(), 2);
    assert_eq!(DispatchError::NodeNotFound.code(), 3);
    assert_eq!(DispatchError::MessageFormat.code(), 4);
    assert_eq!(DispatchError::Timeout.code(), 5);
    assert_eq!(DispatchError::MailboxRemote.code(), 99);
    assert_eq!(DispatchError::MailboxLocal.code(), 99);
    assert_eq!(DispatchError::Protocol.code(), 99);
    assert_eq!(DispatchError::Other.code(), 99);
    for e in [
        DispatchError::ProcessNotFound,
        DispatchError::MethodNotFound,
        DispatchError::NodeNotFound,
        DispatchError::MessageFormat,
        DispatchError::Timeout,
    ] {
        assert_eq!(DispatchError::from_code(e.code()), e);
    }
    assert_eq!(DispatchError::from_code(99), DispatchError::Other);
    assert_eq!(DispatchError::from_code(0), DispatchError::Other);
    assert_eq!(DispatchError::from_code(-7), DispatchError::Other);
}

#[test]
fn second_response_with_same_correlation_is_discarded() {
    let mut link = NodeLink::new(Uuid(0xb));
    let call = MethodCall { procid: None, method: 7, body: b"x".to_vec() };
    let (corr, _frame) = link.begin_request(&call, 55);
    let response = Net::Response(Response {
        correlation: corr,
        body: Some(b"ok".to_vec()),
        error: None,
    });
    let first = link.handle_frame(response.clone());
    assert_eq!(
        first,
        Some(LinkAction::Complete { waiter: 55, outcome: Ok(b"ok".to_vec()) })
    );
    // The waiter resolved; the duplicate must be dropped, not delivered twice.
    assert_eq!(link.handle_frame(response), None);
}

#[test]
fn timeout_resolves_a_request_exactly_once() {
    let mut link = NodeLink::new(Uuid(0xb));
    let call = MethodCall { procid: None, method: 7, body: Vec::new() };
    let (corr, _frame) = link.begin_request(&call, 77);
    // The deadline elapses first: the timeout path removes the waiter and
    // surfaces the timeout error.
    assert_eq!(link.take_waiter(corr), Some(77));
    // A late response finds nothing and is discarded.
    let late = Net::Response(Response {
        correlation: corr,
        body: Some(b"late".to_vec()),
        error: None,
    });
    assert_eq!(link.handle_frame(late), None);
    // And the timeout path itself cannot fire twice either.
    assert_eq!(link.take_waiter(corr), None);
}

#[test]
fn ping_is_answered_with_pong() {
    let mut link = NodeLink::new(Uuid(0xb));
    assert_eq!(link.handle_frame(Net::Ping), Some(LinkAction::Write(Net::Pong)));
    assert_eq!(link.handle_frame(Net::Pong), None);
}

#[test]
fn requests_route_by_their_target() {
    let mut link = NodeLink::new(Uuid(0xb));
    let addressed = Net::Request(Request {
        procid: Some(Uuid(9)),
        correlation: Some(1),
        method: 4,
        body: b"p".to_vec(),
    });
    match link.handle_frame(addressed) {
        Some(LinkAction::DispatchProcess { procid, method, correlation, .. }) => {
            assert_eq!(procid, Uuid(9));
            assert_eq!(method, 4);
            assert_eq!(correlation, Some(1));
        }
        other => panic!("addressed request routed wrong: {:?}", other),
    }
    // The nil target and the absent target are both unaddressed calls.
    for procid in [Some(Uuid(0)), None] {
        let unaddressed = Net::Request(Request {
            procid,
            correlation: None,
            method: 6,
            body: Vec::new(),
        });
        match link.handle_frame(unaddressed) {
            Some(LinkAction::DispatchGlobal { method, correlation, .. }) => {
                assert_eq!(method, 6);
                assert_eq!(correlation, None);
            }
            other => panic!("unaddressed request routed wrong: {:?}", other),
        }
    }
}

#[test]
fn teardown_fails_every_outstanding_waiter() {
    let mut link = NodeLink::new(Uuid(0xb));
    let call = MethodCall { procid: None, method: 1, body: Vec::new() };
    let (c1, _) = link.begin_request(&call, 10);
    let (c2, _) = link.begin_request(&call, 20);
    assert_ne!(c1, c2);
    let mut failed = link.fail_all();
    failed.sort();
    let waiters: Vec<u64> = failed.iter().map(|p| p.1).collect();
    assert_eq!(waiters, vec![10, 20]);
    // Nothing is left to resolve afterwards.
    assert_eq!(link.take_waiter(c1), None);
    assert_eq!(link.take_waiter(c2), None);
}

/// Carries a frame across the simulated wire: encode on one side, decode
/// on the other.
fn ship(frame: &Net) -> Net {
    let codec = NetCodec;
    let mut buf = Vec::new();
    codec.encode(frame, &mut buf).expect("encodes");
    codec.decode(&mut buf).expect("decodes").expect("whole frame")
}

struct EchoDispatcher;

impl Dispatcher for EchoDispatcher {
    fn dispatch(&mut self, _method: u32, body: &[u8]) -> Result<Vec<u8>, DispatchError> {
        Ok(body.to_vec())
    }
}

const ECHO: u32 = 0x0e_c0;

struct EchoMethod(Vec<u8>);

impl RpcMethod for EchoMethod {
    type Output = Vec<u8>;

    fn spec_id() -> u32 {
        ECHO
    }

    fn method_id() -> u32 {
        ECHO
    }

    fn write(&self, b: &mut Vec<u8>) -> Result<(), DispatchError> {
        b.extend_from_slice(&self.0);
        Ok(())
    }

    fn read(b: &[u8]) -> Result<Self, DispatchError> {
        Ok(EchoMethod(b.to_vec()))
    }

    fn read_result(b: &[u8]) -> Result<Vec<u8>, DispatchError> {
        Ok(b.to_vec())
    }

    fn write_result(r: &Vec<u8>, b: &mut Vec<u8>) -> Result<(), DispatchError> {
        b.extend_from_slice(r);
        Ok(())
    }
}

#[test]
fn echo_call_between_two_nodes() {
    // Node a hosts an echo handler; node b calls it through its node
    // handle and gets its own bytes back within the correlation protocol.
    let node_a = Uuid(0xa);
    let mut controller_a = NodeController::new();
    let mut echo = EchoDispatcher;
    controller_a.register_global_handler(RegisterGlobalHandler::new::<EchoMethod>(1));

    let mut link_b = NodeLink::new(node_a);
    let mut link_a = NodeLink::new(Uuid(0xb));

    let dispatch = NodeId(node_a).send(&EchoMethod(b"hi".to_vec())).expect("encodes");
    assert_eq!(dispatch.nodeid, node_a);
    let (corr, frame) = link_b.begin_request(&dispatch.inner, 1);

    // The frame crosses the wire and a routes it to its global handler.
    let action = link_a.handle_frame(ship(&frame));
    let reply = match action {
        Some(LinkAction::DispatchGlobal { method, body, correlation }) => {
            let handler = controller_a.resolve_global(method).expect("handler installed");
            assert_eq!(handler, 1);
            let outcome = echo.dispatch(method, &body);
            NodeLink::make_response_frame(correlation.expect("correlated"), outcome)
        }
        other => panic!("expected a global dispatch, got {:?}", other),
    };

    // The response crosses back and resolves b's waiter.
    match link_b.handle_frame(ship(&reply)) {
        Some(LinkAction::Complete { waiter, outcome }) => {
            assert_eq!(waiter, 1);
            let result = resolve_remote::<EchoMethod>(Some(outcome));
            assert_eq!(result.unwrap(), b"hi".to_vec());
        }
        other => panic!("expected completion, got {:?}", other),
    }
    let _ = corr;

    // Node a disconnects: the same call now fails fast with a routing
    // error instead of hanging.
    let mut controller_b = NodeController::new();
    controller_b.handle_connected(node_a, 1);
    assert!(controller_b.send_to_node(node_a).is_ok());
    controller_b.handle_disconnected(node_a);
    assert_eq!(controller_b.send_to_node(node_a), Err(DispatchError::NodeNotFound));
}

#[test]
fn local_and_remote_pids_agree() {
    // The same logical call through a local handle and a remote handle:
    // identical success results, one error surface.
    let procid = Uuid(0x77);
    let mut echo_local = EchoDispatcher;
    let mut echo_remote = EchoDispatcher;
    let local = Pid::Local { id: procid, addr: 5 };
    let remote = Pid::Remote(procid);
    let msg = EchoMethod(b"same".to_vec());

    // Local: the delivery is the mailbox; the runtime invokes the
    // dispatcher directly.
    let local_result = match local.send(&msg).unwrap() {
        PidDelivery::Local { addr } => {
            assert_eq!(addr, 5);
            echo_local.dispatch(ECHO, &msg.to_buf().unwrap())
        }
        other => panic!("local pid must deliver locally: {:?}", other),
    };

    // Remote: the delivery is a serialized call that rides the full
    // registry, link and codec path to the hosting node's dispatcher.
    let remote_result = match remote.send(&msg).unwrap() {
        PidDelivery::Remote(call) => {
            assert_eq!(call.procid, Some(procid));
            assert_eq!(call.method, ECHO);
            let mut registry_a = ProcessRegistry::new();
            registry_a.handle_register(Register::new(procid, 8));
            let mut link_b = NodeLink::new(Uuid(0xa));
            let mut link_a = NodeLink::new(Uuid(0xb));
            let (_, frame) = link_b.begin_request(&call, 2);
            let reply = match link_a.handle_frame(ship(&frame)) {
                Some(LinkAction::DispatchProcess { procid, method, body, correlation }) => {
                    let outcome = match registry_a.dispatch(procid) {
                        RouteDecision::Local(token) => {
                            assert_eq!(token, 8);
                            echo_remote.dispatch(method, &body)
                        }
                        _ => Err(DispatchError::ProcessNotFound),
                    };
                    NodeLink::make_response_frame(correlation.unwrap(), outcome)
                }
                other => panic!("expected process dispatch: {:?}", other),
            };
            match link_b.handle_frame(ship(&reply)) {
                Some(LinkAction::Complete { outcome, .. }) => outcome,
                other => panic!("expected completion: {:?}", other),
            }
        }
        other => panic!("remote pid must deliver remotely: {:?}", other),
    };

    assert_eq!(local_result, remote_result);
    assert_eq!(remote_result.unwrap(), b"same".to_vec());
}

#[test]
fn recipient_keeps_locality() {
    let local = Pid::Local { id: Uuid(1), addr: 3 };
    let rec = local.recipient();
    assert_eq!(rec.id, Uuid(1));
    assert_eq!(rec.local, Some(3));
    let remote = local.into_remote();
    assert_eq!(remote, Pid::Remote(Uuid(1)));
    let rec2 = PidRecipient::from_id(Uuid(2));
    assert_eq!(rec2.local, None);
    match rec2.send(&EchoMethod(b"r".to_vec())).unwrap() {
        PidDelivery::Remote(call) => assert_eq!(call.procid, Some(Uuid(2))),
        other => panic!("expected remote delivery: {:?}", other),
    }
}

#[test]
fn resolve_remote_surfaces_one_error_surface() {
    assert_eq!(
        resolve_remote::<EchoMethod>(None),
        Err(DispatchError::MailboxLocal)
    );
    assert_eq!(
        resolve_remote::<EchoMethod>(Some(Err(DispatchError::Timeout))),
        Err(DispatchError::Timeout)
    );
    assert_eq!(
        resolve_remote::<EchoMethod>(Some(Ok(b"v".to_vec()))),
        Ok(b"v".to_vec())
    );
}

#[test]
fn last_global_handler_registration_wins() {
    let mut controller = NodeController::new();
    controller.register_global_handler(RegisterGlobalHandler::new::<EchoMethod>(1));
    controller.register_global_handler(RegisterGlobalHandler::with_nodeinfo::<EchoMethod>(2));
    assert_eq!(controller.resolve_global(ECHO), Ok(2));
    assert_eq!(
        controller.resolve_global(ECHO + 1),
        Err(DispatchError::MethodNotFound)
    );
}

#[test]
fn status_listeners_are_notified_and_pruned() {
    let mut controller = NodeController::new();
    let l1 = controller.register_status_listener(Uuid(1), RegisterRecipient(100));
    assert_eq!(l1, Uuid(1));
    controller.register_status_listener(Uuid(2), RegisterRecipient(200));
    let notified = controller.handle_connected(Uuid(0xa), 7);
    let mut tokens: Vec<u64> = notified.iter().map(|p| p.1).collect();
    tokens.sort();
    assert_eq!(tokens, vec![100, 200]);
    // Listener 1's delivery failed: it is pruned and not notified again.
    controller.remove_status_listener(Uuid(1));
    let notified = controller.handle_disconnected(Uuid(0xa));
    let tokens: Vec<u64> = notified.iter().map(|p| p.1).collect();
    assert_eq!(tokens, vec![200]);
}

#[test]
fn list_nodes_names_every_connected_peer() {
    let mut controller = NodeController::new();
    controller.handle_connected(Uuid(0xa), 1);
    controller.handle_connected(Uuid(0xb), 2);
    let mut nodes = controller.list_nodes(quix::node::ListNodes);
    nodes.sort();
    assert_eq!(nodes, vec![0xa, 0xb]);
    assert_eq!(controller.all_links().len(), 2);
}

#[test]
fn handshake_frames_carry_the_identity() {
    let me = Uuid(0x1234);
    let frame = NodeLink::handshake_frame(me);
    assert_eq!(NodeLink::accept_handshake(&ship(&frame)), Ok(me));
    assert_eq!(
        NodeLink::accept_handshake(&Net::Ping),
        Err(DispatchError::Protocol)
    );
}

#[test]
fn update_method_round_trips_a_diff() {
    let pl = ProcessList { newids: Uuid(1).to_bytes(), delids: Uuid(2).to_bytes() };
    let update = Update(pl.clone());
    let buf = update.to_buf().unwrap();
    let back = Update::read(&buf).unwrap();
    assert_eq!(back.0, pl);
    // An empty diff round-trips too, as the empty encoding.
    let empty = Update(ProcessList { newids: Vec::new(), delids: Vec::new() });
    let buf = empty.to_buf().unwrap();
    assert!(buf.is_empty());
    assert_eq!(Update::read(&buf).unwrap().0, empty.0);
    // And it rides a broadcast under its fixed method id.
    let bcast = update.make_broadcast(None).unwrap();
    assert_eq!(bcast.method, 520454116);
    assert_eq!(bcast.procid, None);
}

#[test]
fn memkv_reads_what_it_wrote() {
    let mut kv = MemKv::new();
    kv.handle_write(Write { key: b"k".to_vec(), value: b"v1".to_vec() });
    kv.handle_write(Write { key: b"k".to_vec(), value: b"v2".to_vec() });
    assert_eq!(
        kv.handle_local_read(&LocalRead { key: b"k".to_vec() }),
        Some(b"v2".to_vec())
    );
    assert_eq!(kv.handle_local_read(&LocalRead { key: b"missing".to_vec() }), None);
    assert_eq!(kv.handle_get(b"k"), Some(b"v2".to_vec()));
}

#[test]
fn memkv_get_method_round_trips() {
    let get = Get(Key { data: b"the-key".to_vec() });
    let buf = get.to_buf().unwrap();
    let back = Get::read(&buf).unwrap();
    assert_eq!(back.0.data, b"the-key".to_vec());
    let mut out = Vec::new();
    Get::write_result(&Value { data: Some(b"v".to_vec()) }, &mut out).unwrap();
    assert_eq!(Get::read_result(&out).unwrap().data, Some(b"v".to_vec()));
    let mut out = Vec::new();
    Get::write_result(&Value { data: None }, &mut out).unwrap();
    assert_eq!(Get::read_result(&out).unwrap().data, None);
    // An empty value present is still distinct from no value at all.
    let mut out = Vec::new();
    Get::write_result(&Value { data: Some(Vec::new()) }, &mut out).unwrap();
    assert_eq!(Get::read_result(&out).unwrap().data, Some(Vec::new()));
}

#[test]
fn global_find_takes_the_first_value() {
    assert_eq!(first_found(&vec![]), None);
    assert_eq!(first_found(&vec![None, None]), None);
    assert_eq!(
        first_found(&vec![None, Some(b"a".to_vec()), Some(b"b".to_vec())]),
        Some(b"a".to_vec())
    );
}

#[test]
fn uuid_rejects_nothing_it_was_promised() {
    // The id of a packed directory entry reads back to the same bytes.
    let raw: Vec<u8> = (100u8..116).collect();
    assert_eq!(uuid(&raw).to_bytes(), raw);
}
