//! The process registry: the authoritative table of locally running
//! processes, a cache of where remote processes live, and the staging
//! buffers behind the periodic directory gossip.
//!
//! The runtime drives it: registration on process start, unregistration on
//! stop, a tick on the gossip interval whose diff it broadcasts, a full
//! snapshot for each freshly connected peer, and every diff received from
//! a peer.

use crate::ids::{be_value, uuid_bytes, Uuid};
use crate::node::FromNode;
use crate::proto::{ids_of, lemma_ids_of_packed, lemma_packed_snoc, packed_ids, ProcessList};
use crate::table::{map_of, nodup_keys, Table};
use vstd::prelude::*;

verus! {

/// Appends an identifier's 16 wire bytes to a packed id list.
pub fn fold_uuids(a: Vec<u8>, u: &Uuid) -> (r: Vec<u8>)
    ensures
        r@ == a@ + uuid_bytes(*u),
{
    let mut a = a;
    let bytes = u.to_bytes();
    let mut i: usize = 0;
    let ghost pre = a@;
    while i < bytes.len()
        invariant
            i <= bytes@.len(),
            a@ == pre + bytes@.take(i as int),
        decreases bytes@.len() - i,
    {
        a.push(bytes[i]);
        proof {
            assert(pre + bytes@.take(i as int) + seq![bytes@[i as int]] =~= pre + bytes@.take(
                i + 1,
            ));
        }
        i += 1;
    }
    proof {
        assert(bytes@.take(bytes@.len() as int) =~= bytes@);
    }
    a
}

/// No identifier occurs twice in the list.
pub open spec fn distinct_ids(ids: Seq<u128>) -> bool {
    forall|i: int, j: int| 0 <= i < j < ids.len() ==> ids[i] != ids[j]
}

/// The remote cache after the deleted ids of a diff are dropped, first to
/// last.
pub open spec fn remove_all(m: Map<u128, u128>, ids: Seq<u128>) -> Map<u128, u128>
    decreases ids.len(),
{
    if ids.len() == 0 {
        m
    } else {
        remove_all(m.remove(ids.first()), ids.drop_first())
    }
}

/// The remote cache after the new ids of a diff are recorded as living on
/// `owner`, first to last.
pub open spec fn insert_all(m: Map<u128, u128>, ids: Seq<u128>, owner: u128) -> Map<u128, u128>
    decreases ids.len(),
{
    if ids.len() == 0 {
        m
    } else {
        insert_all(m.insert(ids.first(), owner), ids.drop_first(), owner)
    }
}

/// Recording a diff's new ids maps each of them to the sending node and
/// touches nothing else.
pub proof fn lemma_insert_all(m: Map<u128, u128>, ids: Seq<u128>, owner: u128, id: u128)
    ensures
        ids.contains(id) ==> insert_all(m, ids, owner).contains_key(id) && insert_all(
            m,
            ids,
            owner,
        )[id] == owner,
        !ids.contains(id) ==> insert_all(m, ids, owner).contains_key(id) == m.contains_key(id)
            && (m.contains_key(id) ==> insert_all(m, ids, owner)[id] == m[id]),
    decreases ids.len(),
{
    if ids.len() > 0 {
        let m1 = m.insert(ids.first(), owner);
        lemma_insert_all(m1, ids.drop_first(), owner, id);
        if ids.contains(id) {
            if ids.drop_first().contains(id) {
            } else {
                assert(ids[0] == id) by {
                    let j = choose|j: int| 0 <= j < ids.len() && ids[j] == id;
                    if j > 0 {
                        assert(ids.drop_first()[j - 1] == id);
                    }
                }
            }
        } else {
            assert(!ids.drop_first().contains(id)) by {
                if ids.drop_first().contains(id) {
                    let j = choose|j: int|
                        0 <= j < ids.drop_first().len() && ids.drop_first()[j] == id;
                    assert(ids[j + 1] == id);
                }
            }
            assert(ids[0] != id);
        }
    }
}

/// Registers a process that started on this node: its dispatcher is known
/// to the runtime under the given token.
pub struct Register {
    pub id: Uuid,
    pub dispatcher: u64,
}

impl Register {
    pub fn new(id: Uuid, dispatcher: u64) -> (r: Self)
        ensures
            r.id == id,
            r.dispatcher == dispatcher,
    {
        Register { id, dispatcher }
    }
}

/// Unregisters a process that stopped on this node.
pub struct Unregister {
    pub id: Uuid,
}

/// Where the registry routes a call for a target process.
#[derive(Debug, PartialEq, Eq, Structural)]
pub enum RouteDecision {
    /// The process runs here: invoke the dispatcher under this token.
    Local(u64),
    /// The cache says the process lives on this node: forward the call.
    Forward(Uuid),
    /// In neither table: the routine, retriable not-found outcome.
    NotFound,
}

/// The per-node process directory state.
pub struct ProcessRegistry {
    local: Table<u64>,
    nodes: Table<u128>,
    fresh: Table<()>,
    dead: Table<()>,
}

impl ProcessRegistry {
    /// The locally running processes: id to dispatcher token.
    pub closed spec fn local(&self) -> Map<u128, u64> {
        self.local@
    }

    /// The remote cache: id to the node believed to host it.
    pub closed spec fn remote(&self) -> Map<u128, u128> {
        self.nodes@
    }

    /// The ids registered since the last gossip tick and not yet announced.
    pub closed spec fn pending_new(&self) -> Set<u128> {
        self.fresh@.dom()
    }

    /// The ids unregistered since the last gossip tick whose departure is
    /// not yet announced.
    pub closed spec fn pending_deleted(&self) -> Set<u128> {
        self.dead@.dom()
    }

    pub fn new() -> (r: Self)
        ensures
            r.local() == Map::<u128, u64>::empty(),
            r.remote() == Map::<u128, u128>::empty(),
            r.pending_new() == Set::<u128>::empty(),
            r.pending_deleted() == Set::<u128>::empty(),
    {
        let r = ProcessRegistry {
            local: Table::new(),
            nodes: Table::new(),
            fresh: Table::new(),
            dead: Table::new(),
        };
        proof {
            assert(r.pending_new() =~= Set::<u128>::empty());
            assert(r.pending_deleted() =~= Set::<u128>::empty());
        }
        r
    }

    /// A process started here: enter its dispatcher and stage the id for
    /// the next outgoing diff.
    pub fn handle_register(&mut self, msg: Register)
        ensures
            final(self).local() == old(self).local().insert(msg.id.0, msg.dispatcher),
            final(self).remote() == old(self).remote(),
            final(self).pending_deleted() == old(self).pending_deleted(),
            final(self).pending_new() == old(self).pending_new().insert(msg.id.0),
    {
        self.fresh.insert(msg.id.0, ());
        self.local.insert(msg.id.0, msg.dispatcher);
        proof {
            assert(self.pending_new() =~= old(self).pending_new().insert(msg.id.0));
        }
    }

    /// A process stopped here: drop its dispatcher. An id still staged as
    /// new was never announced: it is withdrawn instead of being staged as
    /// deleted, so a process born and gone within one gossip interval
    /// appears in no diff at all.
    pub fn handle_unregister(&mut self, msg: Unregister)
        ensures
            final(self).local() == old(self).local().remove(msg.id.0),
            final(self).remote() == old(self).remote(),
            final(self).pending_new() == old(self).pending_new().remove(msg.id.0),
            old(self).pending_new().contains(msg.id.0) ==> final(self).pending_deleted() == old(self).pending_deleted(),
            !old(self).pending_new().contains(msg.id.0) ==> final(self).pending_deleted() == old(self).pending_deleted().insert(msg.id.0),
    {
        self.local.remove(msg.id.0);
        if self.fresh.contains_key(msg.id.0) {
            self.fresh.remove(msg.id.0);
            proof {
                assert(self.pending_new() =~= old(self).pending_new().remove(msg.id.0));
            }
        } else {
            self.dead.insert(msg.id.0, ());
            proof {
                assert(self.pending_new() =~= old(self).pending_new().remove(msg.id.0));
                assert(self.pending_deleted() =~= old(self).pending_deleted().insert(msg.id.0));
            }
        }
    }

    /// The gossip tick: nothing to say if nothing changed; otherwise drain
    /// both staging buffers into one diff to broadcast, each pending set
    /// packed without repetition.
    pub fn directory_tick(&mut self) -> (r: Option<ProcessList>)
        ensures
            final(self).local() == old(self).local(),
            final(self).remote() == old(self).remote(),
            r is None <==> old(self).pending_new() == Set::<u128>::empty() && old(self).pending_deleted() == Set::<u128>::empty(),
            r is None ==> final(self).pending_new() == old(self).pending_new() && final(self).pending_deleted() == old(self).pending_deleted(),
            r matches Some(pl) ==> final(self).pending_new() == Set::<u128>::empty() && final(self).pending_deleted() == Set::<u128>::empty() && distinct_ids(ids_of(pl.newids@))
                && distinct_ids(ids_of(pl.delids@)) && ids_of(pl.newids@).to_set() == old(self).pending_new() && ids_of(pl.delids@).to_set() == old(self).pending_deleted(),
    {
        let fresh_empty = self.fresh.is_empty();
        let dead_empty = self.dead.is_empty();
        if fresh_empty && dead_empty {
            proof {
                assert(old(self).pending_new() =~= Set::<u128>::empty());
                assert(old(self).pending_deleted() =~= Set::<u128>::empty());
            }
            return None;
        }
        proof {
            if old(self).pending_new() == Set::<u128>::empty() && old(self).pending_deleted()
                == Set::<u128>::empty() {
                assert(self.fresh@ =~= Map::<u128, ()>::empty());
                assert(self.dead@ =~= Map::<u128, ()>::empty());
                assert(false);
            }
        }
        let fresh_entries = self.fresh.take_entries();
        let dead_entries = self.dead.take_entries();
        let newids = Self::pack_entries(&fresh_entries);
        let delids = Self::pack_entries(&dead_entries);
        proof {
            lemma_drained_keys(fresh_entries@, old(self).fresh@);
            lemma_drained_keys(dead_entries@, old(self).dead@);
            assert(self.pending_new() =~= Set::<u128>::empty());
            assert(self.pending_deleted() =~= Set::<u128>::empty());
        }
        Some(ProcessList { newids, delids })
    }

    /// Packs the keys of drained staging entries, in order.
    fn pack_entries(entries: &Vec<(u128, ())>) -> (r: Vec<u8>)
        ensures
            ids_of(r@) == Seq::new(entries@.len(), |i: int| entries@[i].0),
            r@ == packed_ids(Seq::new(entries@.len(), |i: int| entries@[i].0)),
    {
        let ghost keys = Seq::new(entries@.len(), |i: int| entries@[i].0);
        let mut out: Vec<u8> = Vec::new();
        let mut i: usize = 0;
        proof {
            assert(keys.take(0) =~= Seq::<u128>::empty());
        }
        while i < entries.len()
            invariant
                i <= entries@.len(),
                keys == Seq::new(entries@.len(), |j: int| entries@[j].0),
                out@ == packed_ids(keys.take(i as int)),
            decreases entries@.len() - i,
        {
            let id = Uuid(entries[i].0);
            out = fold_uuids(out, &id);
            proof {
                lemma_packed_snoc(keys.take(i as int), keys[i as int]);
                assert(keys.take(i as int).push(keys[i as int]) =~= keys.take(i + 1));
            }
            i += 1;
        }
        proof {
            assert(keys.take(keys.len() as int) =~= keys);
            lemma_ids_of_packed(keys);
        }
        out
    }

    /// The full snapshot for a freshly connected peer: every local process
    /// id as a new list, nothing deleted.
    pub fn announce_all(&self) -> (r: ProcessList)
        ensures
            distinct_ids(ids_of(r.newids@)),
            ids_of(r.newids@).to_set() == self.local().dom(),
            r.delids@ == Seq::<u8>::empty(),
    {
        let keys = self.local.keys();
        let ghost keyseq = keys@;
        let mut newids: Vec<u8> = Vec::new();
        let mut i: usize = 0;
        proof {
            assert(keyseq.take(0) =~= Seq::<u128>::empty());
        }
        while i < keys.len()
            invariant
                i <= keyseq.len(),
                keys@ == keyseq,
                newids@ == packed_ids(keyseq.take(i as int)),
            decreases keyseq.len() - i,
        {
            let id = Uuid(keys[i]);
            newids = fold_uuids(newids, &id);
            proof {
                lemma_packed_snoc(keyseq.take(i as int), keyseq[i as int]);
                assert(keyseq.take(i as int).push(keyseq[i as int]) =~= keyseq.take(i + 1));
            }
            i += 1;
        }
        proof {
            assert(keyseq.take(keyseq.len() as int) =~= keyseq);
            lemma_ids_of_packed(keyseq);
            assert(ids_of(newids@).to_set() =~= self.local().dom()) by {
                assert forall|k: u128|
                    keyseq.to_set().contains(k) implies self.local().dom().contains(k) by {
                    let j = choose|j: int| 0 <= j < keyseq.len() && keyseq[j] == k;
                    assert(self.local@.contains_key(keyseq[j]));
                }
                assert forall|k: u128|
                    self.local().dom().contains(k) implies keyseq.to_set().contains(k) by {
                    assert(keyseq.contains(k));
                }
            }
        }
        ProcessList { newids, delids: Vec::new() }
    }

    /// A diff arrived from a peer: drop its deleted ids from the remote
    /// cache, then record each new id as living on the sender. The last
    /// writer wins; no generation is compared — the cache is eventually
    /// consistent by design.
    pub fn apply_update(&mut self, msg: &FromNode<ProcessList>)
        ensures
            final(self).local() == old(self).local(),
            final(self).pending_new() == old(self).pending_new(),
            final(self).pending_deleted() == old(self).pending_deleted(),
            final(self).remote() == insert_all(
                remove_all(old(self).remote(), ids_of(msg.inner.delids@)),
                ids_of(msg.inner.newids@),
                msg.node_id.0,
            ),
    {
        self.remove_ids(msg.inner.delids.as_slice(), 0);
        self.insert_ids(msg.inner.newids.as_slice(), 0, msg.node_id);
        proof {
            assert(msg.inner.delids@.skip(0) =~= msg.inner.delids@);
            assert(msg.inner.newids@.skip(0) =~= msg.inner.newids@);
        }
    }

    /// Drops every whole 16-byte id in `data` from position `pos` on.
    fn remove_ids(&mut self, data: &[u8], pos: usize)
        requires
            pos <= data@.len(),
        ensures
            final(self).local() == old(self).local(),
            final(self).pending_new() == old(self).pending_new(),
            final(self).pending_deleted() == old(self).pending_deleted(),
            final(self).remote() == remove_all(old(self).remote(), ids_of(data@.skip(pos as int))),
        decreases data@.len() - pos,
    {
        let dlen: usize = data.len();
        if dlen - pos < 16 {
            return ;
        }
        let id = crate::util::uuid_at(data, pos);
        self.nodes.remove(id.0);
        proof {
            let rest = data@.skip(pos as int);
            assert(rest.take(16) =~= data@.subrange(pos as int, pos + 16));
            assert(rest.skip(16) =~= data@.skip(pos + 16));
            crate::ids::lemma_be_value_bound(rest.take(16));
            crate::ids::lemma_pow256_16();
            let idseq = ids_of(rest);
            assert(idseq == seq![be_value(rest.take(16)) as u128] + ids_of(rest.skip(16)));
            assert(idseq.first() == id.0);
            assert(idseq.drop_first() =~= ids_of(data@.skip(pos + 16)));
        }
        self.remove_ids(data, pos + 16);
    }

    /// Records every whole 16-byte id in `data` from position `pos` on as
    /// living on `owner`.
    fn insert_ids(&mut self, data: &[u8], pos: usize, owner: Uuid)
        requires
            pos <= data@.len(),
        ensures
            final(self).local() == old(self).local(),
            final(self).pending_new() == old(self).pending_new(),
            final(self).pending_deleted() == old(self).pending_deleted(),
            final(self).remote() == insert_all(
                old(self).remote(),
                ids_of(data@.skip(pos as int)),
                owner.0,
            ),
        decreases data@.len() - pos,
    {
        let dlen: usize = data.len();
        if dlen - pos < 16 {
            return ;
        }
        let id = crate::util::uuid_at(data, pos);
        self.nodes.insert(id.0, owner.0);
        proof {
            let rest = data@.skip(pos as int);
            assert(rest.take(16) =~= data@.subrange(pos as int, pos + 16));
            assert(rest.skip(16) =~= data@.skip(pos + 16));
            crate::ids::lemma_be_value_bound(rest.take(16));
            crate::ids::lemma_pow256_16();
            let idseq = ids_of(rest);
            assert(idseq == seq![be_value(rest.take(16)) as u128] + ids_of(rest.skip(16)));
            assert(idseq.first() == id.0);
            assert(idseq.drop_first() =~= ids_of(data@.skip(pos + 16)));
        }
        self.insert_ids(data, pos + 16, owner);
    }

    /// Routes a call for a target process: the local dispatcher if the
    /// process runs here, the cached owner node if it is known remotely,
    /// and not-found otherwise.
    pub fn dispatch(&self, target: Uuid) -> (r: RouteDecision)
        ensures
            match r {
                RouteDecision::Local(d) => self.local().contains_key(target.0) && d
                    == self.local()[target.0],
                RouteDecision::Forward(n) => !self.local().contains_key(target.0)
                    && self.remote().contains_key(target.0) && n.0 == self.remote()[target.0],
                RouteDecision::NotFound => !self.local().contains_key(target.0)
                    && !self.remote().contains_key(target.0),
            },
    {
        match self.local.get(target.0) {
            Some(d) => RouteDecision::Local(*d),
            None => match self.nodes.get(target.0) {
                Some(n) => RouteDecision::Forward(Uuid(*n)),
                None => RouteDecision::NotFound,
            },
        }
    }
}

/// Keys drained out of a table carry exactly its key set, without
/// repetition.
proof fn lemma_drained_keys<V>(entries: Seq<(u128, V)>, m: Map<u128, V>)
    requires
        nodup_keys(entries),
        map_of(entries) == m,
    ensures
        distinct_ids(Seq::new(entries.len(), |i: int| entries[i].0)),
        Seq::new(entries.len(), |i: int| entries[i].0).to_set() == m.dom(),
{
    let keys = Seq::new(entries.len(), |i: int| entries[i].0);
    assert forall|k: u128| keys.to_set().contains(k) == m.dom().contains(k) by {
        crate::table::lemma_map_of_contains(entries, k);
        if keys.to_set().contains(k) {
            let i = choose|i: int| 0 <= i < keys.len() && keys[i] == k;
            assert(entries[i].0 == k);
        }
        if m.dom().contains(k) {
            let i = choose|i: int| 0 <= i < entries.len() && entries[i].0 == k;
            assert(keys[i] == k);
            assert(keys.contains(k));
        }
    }
    assert(keys.to_set() =~= m.dom());
}

/// Directory convergence: a diff built from a sender's pending
/// registrations, once packed, shipped and unpacked, maps every id it
/// announced to the sender in the receiver's cache — whatever the cache
/// held before and whatever deletions came along. Together with the gossip
/// tick and the full snapshot, which pack exactly the sender's staged and
/// local tables, every connected peer's cache maps each announced process
/// to its owner after one exchange.
pub proof fn lemma_directory_convergence(
    remote: Map<u128, u128>,
    dels: Seq<u128>,
    pending: Seq<u128>,
    owner: u128,
    id: u128,
)
    requires
        pending.contains(id),
    ensures
        ids_of(packed_ids(pending)) == pending,
        insert_all(remove_all(remote, dels), ids_of(packed_ids(pending)), owner).contains_key(id),
        insert_all(remove_all(remote, dels), ids_of(packed_ids(pending)), owner)[id] == owner,
{
    lemma_ids_of_packed(pending);
    lemma_insert_all(remove_all(remote, dels), pending, owner, id);
}

} // verus!
