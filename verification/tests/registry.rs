//! Registry behaviour: registration, routing, the gossip diff, the
//! full-sync snapshot, and directory convergence across several nodes.

use quix::ids::Uuid;
use quix::node::FromNode;
use quix::proto::ProcessList;
use quix::registry::{ProcessRegistry, Register, RouteDecision, Unregister};

#[test]
fn test_register_process() {
    let mut procs = ProcessRegistry::new();
    let a = Uuid(0xaaaa);
    procs.handle_register(Register::new(a, 1));
    assert_eq!(procs.dispatch(a), RouteDecision::Local(1));
}

#[test]
fn unknown_process_is_not_found() {
    let procs = ProcessRegistry::new();
    assert_eq!(procs.dispatch(Uuid(5)), RouteDecision::NotFound);
}

#[test]
fn unregister_removes_local_route() {
    let mut procs = ProcessRegistry::new();
    let a = Uuid(1);
    procs.handle_register(Register::new(a, 7));
    procs.handle_unregister(Unregister { id: a });
    assert_eq!(procs.dispatch(a), RouteDecision::NotFound);
}

#[test]
fn directory_converges_after_one_gossip_tick() {
    // Nodes a, b, c; a registers p1 and p2; after one tick every other
    // node's cache maps both to a.
    let node_a = Uuid(0xa);
    let p1 = Uuid(0x100);
    let p2 = Uuid(0x200);
    let mut reg_a = ProcessRegistry::new();
    let mut reg_b = ProcessRegistry::new();
    let mut reg_c = ProcessRegistry::new();
    reg_a.handle_register(Register::new(p1, 1));
    reg_a.handle_register(Register::new(p2, 2));
    let diff = reg_a.directory_tick().expect("two registrations are pending");
    reg_b.apply_update(&FromNode { node_id: node_a, inner: diff.clone() });
    reg_c.apply_update(&FromNode { node_id: node_a, inner: diff });
    assert_eq!(reg_b.dispatch(p1), RouteDecision::Forward(node_a));
    assert_eq!(reg_b.dispatch(p2), RouteDecision::Forward(node_a));
    assert_eq!(reg_c.dispatch(p1), RouteDecision::Forward(node_a));
    assert_eq!(reg_c.dispatch(p2), RouteDecision::Forward(node_a));
}

#[test]
fn full_sync_seeds_a_fresh_peer() {
    let node_a = Uuid(0xa);
    let p1 = Uuid(0x111);
    let mut reg_a = ProcessRegistry::new();
    let mut reg_b = ProcessRegistry::new();
    reg_a.handle_register(Register::new(p1, 1));
    let _ = reg_a.directory_tick();
    // b connects later and misses the diff: the one-shot snapshot covers it.
    let snapshot = reg_a.announce_all();
    assert!(snapshot.delids.is_empty());
    reg_b.apply_update(&FromNode { node_id: node_a, inner: snapshot });
    assert_eq!(reg_b.dispatch(p1), RouteDecision::Forward(node_a));
}

#[test]
fn transient_process_appears_in_no_diff() {
    // Registered and gone again before the tick: the diff must mention it
    // in neither list — here nothing was staged at all.
    let mut reg = ProcessRegistry::new();
    let p1 = Uuid(0x42);
    reg.handle_register(Register::new(p1, 1));
    reg.handle_unregister(Unregister { id: p1 });
    assert!(reg.directory_tick().is_none());
}

#[test]
fn straddling_process_is_new_then_deleted() {
    // The registration and the unregistration fall on opposite sides of a
    // tick: it appears as new in the first diff and deleted in the second.
    let mut reg = ProcessRegistry::new();
    let p1 = Uuid(0x42);
    reg.handle_register(Register::new(p1, 1));
    let first = reg.directory_tick().expect("the registration is pending");
    assert_eq!(first.newids, p1.to_bytes());
    assert!(first.delids.is_empty());
    reg.handle_unregister(Unregister { id: p1 });
    let second = reg.directory_tick().expect("the departure is pending");
    assert!(second.newids.is_empty());
    assert_eq!(second.delids, p1.to_bytes());
}

#[test]
fn quiet_interval_sends_nothing() {
    let mut reg = ProcessRegistry::new();
    assert!(reg.directory_tick().is_none());
    reg.handle_register(Register::new(Uuid(1), 1));
    assert!(reg.directory_tick().is_some());
    // Drained: the next interval is quiet again.
    assert!(reg.directory_tick().is_none());
}

#[test]
fn deletion_diff_evicts_cache_entry() {
    let node_a = Uuid(0xa);
    let p1 = Uuid(0x1);
    let mut reg_b = ProcessRegistry::new();
    reg_b.apply_update(
        &FromNode { node_id: node_a, inner: ProcessList { newids: p1.to_bytes(), delids: Vec::new() } },
    );
    assert_eq!(reg_b.dispatch(p1), RouteDecision::Forward(node_a));
    reg_b.apply_update(
        &FromNode { node_id: node_a, inner: ProcessList { newids: Vec::new(), delids: p1.to_bytes() } },
    );
    assert_eq!(reg_b.dispatch(p1), RouteDecision::NotFound);
}

#[test]
fn last_writer_wins_on_conflicting_claims() {
    let p1 = Uuid(0x1);
    let mut reg = ProcessRegistry::new();
    reg.apply_update(
        &FromNode { node_id: Uuid(0xa), inner: ProcessList { newids: p1.to_bytes(), delids: Vec::new() } },
    );
    reg.apply_update(
        &FromNode { node_id: Uuid(0xb), inner: ProcessList { newids: p1.to_bytes(), delids: Vec::new() } },
    );
    assert_eq!(reg.dispatch(p1), RouteDecision::Forward(Uuid(0xb)));
}

#[test]
fn local_table_wins_over_remote_cache() {
    let p1 = Uuid(0x1);
    let mut reg = ProcessRegistry::new();
    reg.apply_update(
        &FromNode { node_id: Uuid(0xa), inner: ProcessList { newids: p1.to_bytes(), delids: Vec::new() } },
    );
    reg.handle_register(Register::new(p1, 9));
    assert_eq!(reg.dispatch(p1), RouteDecision::Local(9));
}

#[test]
fn fold_uuids_appends_sixteen_bytes() {
    let packed = quix::registry::fold_uuids(vec![0xff], &Uuid(0x0102));
    assert_eq!(packed.len(), 17);
    assert_eq!(packed[0], 0xff);
    assert_eq!(&packed[1..], &Uuid(0x0102).to_bytes()[..]);
}
