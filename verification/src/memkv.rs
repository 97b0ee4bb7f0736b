//! A simple in-memory key-value store built on the dispatch layer: the
//! local instance is read and written directly, remote instances are read
//! through node-addressed calls, and a cluster-wide lookup asks every
//! connected node and takes the first answer that holds a value.

use crate::process::DispatchError;
use crate::util::RpcMethod;
use crate::wire::{dec_len_bytes, read_len_bytes, varint_enc, write_len_bytes};
use vstd::prelude::*;

verus! {

/// A lookup key, as the wire carries it: one required bytes field.
#[derive(Clone, Debug, PartialEq, Eq)]
pub struct Key {
    pub data: Vec<u8>,
}

/// A lookup answer, as the wire carries it: the value if the key was
/// bound, nothing otherwise.
#[derive(Clone, Debug, PartialEq, Eq)]
pub struct Value {
    pub data: Option<Vec<u8>>,
}

/// The encoded key.
pub open spec fn enc_key(data: Seq<u8>) -> Seq<u8> {
    seq![0x0au8] + varint_enc(data.len()) + data
}

/// The decoded key: exactly one bytes field.
pub open spec fn dec_key(s: Seq<u8>) -> Option<Seq<u8>> {
    if s.len() >= 1 && s[0] == 0x0au8 {
        match dec_len_bytes(s.drop_first()) {
            None => None,
            Some((payload, rest)) => if rest.len() == 0 {
                Some(payload)
            } else {
                None
            },
        }
    } else {
        None
    }
}

/// The encoded answer: the bytes field only when a value is present.
pub open spec fn enc_value(data: Option<Seq<u8>>) -> Seq<u8> {
    match data {
        Some(d) => seq![0x0au8] + varint_enc(d.len()) + d,
        None => Seq::empty(),
    }
}

/// The decoded answer.
pub open spec fn dec_value(s: Seq<u8>) -> Option<Option<Seq<u8>>> {
    if s.len() == 0 {
        Some(None)
    } else if s[0] == 0x0au8 {
        match dec_len_bytes(s.drop_first()) {
            None => None,
            Some((payload, rest)) => if rest.len() == 0 {
                Some(Some(payload))
            } else {
                None
            },
        }
    } else {
        None
    }
}

/// Keys and answers survive their trip over the wire.
pub proof fn lemma_kv_round_trip(data: Seq<u8>, v: Option<Seq<u8>>)
    ensures
        dec_key(enc_key(data)) == Some(data),
        dec_value(enc_value(v)) == Some(v),
{
    assert(enc_key(data).drop_first() =~= varint_enc(data.len()) + data + Seq::<u8>::empty());
    crate::wire::lemma_len_bytes_round_trip(data, Seq::<u8>::empty());
    match v {
        Some(d) => {
            assert(enc_value(v).drop_first() =~= varint_enc(d.len()) + d + Seq::<u8>::empty());
            crate::wire::lemma_len_bytes_round_trip(d, Seq::<u8>::empty());
        },
        None => {},
    }
}

/// The store's remotely callable read: a key in, an answer out.
pub struct Get(pub Key);

impl RpcMethod for Get {
    type Output = Value;

    open spec fn spec_id() -> u32 {
        2761597858
    }

    /// The stable wire id of the store's read method.
    fn method_id() -> (r: u32) {
        2761597858
    }

    fn write(&self, b: &mut Vec<u8>) -> (r: Result<(), DispatchError>)
        ensures
            r matches Ok(_) ==> final(b)@ == old(b)@ + enc_key(self.0.data@),
    {
        write_len_bytes(b, 0x0a, self.0.data.as_slice());
        Ok(())
    }

    fn read(b: &[u8]) -> (r: Result<Self, DispatchError>)
        ensures
            match dec_key(b@) {
                Some(d) => r matches Ok(g) && g.0.data@ == d,
                None => r is Err,
            },
    {
        let blen: usize = b.len();
        if blen >= 1 && b[0] == 0x0a {
            proof {
                assert(b@.drop_first() =~= b@.skip(1));
            }
            match read_len_bytes(b, 1) {
                Ok((payload, p2)) => {
                    if p2 == blen {
                        proof {
                            assert(b@.skip(p2 as int) =~= Seq::<u8>::empty());
                        }
                        Ok(Get(Key { data: payload }))
                    } else {
                        proof {
                            assert(b@.skip(p2 as int).len() > 0);
                        }
                        Err(DispatchError::MessageFormat)
                    }
                },
                Err(e) => Err(e),
            }
        } else {
            Err(DispatchError::MessageFormat)
        }
    }

    fn read_result(b: &[u8]) -> (r: Result<Value, DispatchError>)
        ensures
            match dec_value(b@) {
                Some(d) => r matches Ok(v) && (match (v.data, d) {
                    (Some(x), Some(y)) => x@ == y,
                    (None, None) => true,
                    _ => false,
                }),
                None => r is Err,
            },
    {
        let blen: usize = b.len();
        if blen == 0 {
            return Ok(Value { data: None });
        }
        if b[0] == 0x0a {
            proof {
                assert(b@.drop_first() =~= b@.skip(1));
            }
            match read_len_bytes(b, 1) {
                Ok((payload, p2)) => {
                    if p2 == blen {
                        proof {
                            assert(b@.skip(p2 as int) =~= Seq::<u8>::empty());
                        }
                        Ok(Value { data: Some(payload) })
                    } else {
                        proof {
                            assert(b@.skip(p2 as int).len() > 0);
                        }
                        Err(DispatchError::MessageFormat)
                    }
                },
                Err(e) => Err(e),
            }
        } else {
            Err(DispatchError::MessageFormat)
        }
    }

    fn write_result(r: &Value, b: &mut Vec<u8>) -> (res: Result<(), DispatchError>)
        ensures
            res matches Ok(_) ==> final(b)@ == old(b)@ + enc_value(
                match r.data {
                    Some(d) => Some(d@),
                    None => None,
                },
            ),
    {
        match &r.data {
            Some(d) => {
                write_len_bytes(b, 0x0a, d.as_slice());
            },
            None => {
                proof {
                    assert(b@ =~= old(b)@ + Seq::<u8>::empty());
                }
            },
        }
        Ok(())
    }
}

/// Writes a value under a key in the local store.
pub struct Write {
    pub key: Vec<u8>,
    pub value: Vec<u8>,
}

/// Reads a key from the local store.
pub struct LocalRead {
    pub key: Vec<u8>,
}

/// Reads a key from one specific node's store.
pub struct RemoteRead {
    pub node: crate::ids::Uuid,
    pub key: Vec<u8>,
}

/// Reads a key from every connected node, settling for the first value
/// that comes back.
pub struct GlobalFind {
    pub key: Vec<u8>,
}

/// True exactly when the two byte strings are equal.
fn bytes_eq(a: &[u8], b: &[u8]) -> (r: bool)
    ensures
        r == (a@ == b@),
{
    if a.len() != b.len() {
        proof {
            assert(a@.len() != b@.len());
        }
        return false;
    }
    let mut i: usize = 0;
    while i < a.len()
        invariant
            i <= a@.len(),
            a@.len() == b@.len(),
            forall|j: int| 0 <= j < i ==> a@[j] == b@[j],
        decreases a@.len() - i,
    {
        if a[i] != b[i] {
            return false;
        }
        i += 1;
    }
    proof {
        assert(a@ =~= b@);
    }
    true
}

/// A simple in-memory key-value store. The local instance can be
/// modified; remote instances can only be read.
pub struct MemKv {
    data: Vec<(Vec<u8>, Vec<u8>)>,
}

/// The map a pair list of byte strings describes.
pub open spec fn bytes_map_of(s: Seq<(Vec<u8>, Vec<u8>)>) -> Map<Seq<u8>, Seq<u8>>
    decreases s.len(),
{
    if s.len() == 0 {
        Map::empty()
    } else {
        bytes_map_of(s.drop_last()).insert(s.last().0@, s.last().1@)
    }
}

/// A key is in the map exactly when some pair carries it.
proof fn lemma_bytes_map_contains(s: Seq<(Vec<u8>, Vec<u8>)>, k: Seq<u8>)
    ensures
        bytes_map_of(s).contains_key(k) <==> (exists|i: int| 0 <= i < s.len() && s[i].0@ == k),
    decreases s.len(),
{
    if s.len() > 0 {
        lemma_bytes_map_contains(s.drop_last(), k);
        if bytes_map_of(s).contains_key(k) {
            if s.last().0@ == k {
                assert(s[s.len() - 1].0@ == k);
            } else {
                let i = choose|i: int| 0 <= i < s.drop_last().len() && s.drop_last()[i].0@ == k;
                assert(s[i].0@ == k);
            }
        }
        if exists|i: int| 0 <= i < s.len() && s[i].0@ == k {
            let i = choose|i: int| 0 <= i < s.len() && s[i].0@ == k;
            if i < s.len() - 1 {
                assert(s.drop_last()[i].0@ == k);
            }
        }
    }
}

/// With distinct keys, the pair at any index gives the map's value there.
proof fn lemma_bytes_map_index(s: Seq<(Vec<u8>, Vec<u8>)>, i: int)
    requires
        forall|a: int, b: int| 0 <= a < b < s.len() ==> s[a].0@ != s[b].0@,
        0 <= i < s.len(),
    ensures
        bytes_map_of(s).contains_key(s[i].0@),
        bytes_map_of(s)[s[i].0@] == s[i].1@,
    decreases s.len(),
{
    assert(forall|a: int, b: int|
        0 <= a < b < s.drop_last().len() ==> s.drop_last()[a] == s[a] && s.drop_last()[b] == s[b]);
    if i < s.len() - 1 {
        lemma_bytes_map_index(s.drop_last(), i);
        assert(s[i].0@ != s[s.len() - 1].0@);
    }
}

impl MemKv {
    /// The store's contents.
    pub closed spec fn view(&self) -> Map<Seq<u8>, Seq<u8>> {
        bytes_map_of(self.data@)
    }

    #[verifier::type_invariant]
    spec fn wf(&self) -> bool {
        forall|a: int, b: int| 0 <= a < b < self.data@.len() ==> self.data@[a].0@ != self.data@[b].0@
    }

    pub fn new() -> (r: Self)
        ensures
            r@ == Map::<Seq<u8>, Seq<u8>>::empty(),
    {
        MemKv { data: Vec::new() }
    }

    /// The index holding the key, if any.
    fn find(&self, key: &[u8]) -> (r: Option<usize>)
        ensures
            match r {
                Some(i) => i < self.data@.len() && self.data@[i as int].0@ == key@,
                None => forall|i: int| 0 <= i < self.data@.len() ==> self.data@[i].0@ != key@,
            },
    {
        let mut i: usize = 0;
        while i < self.data.len()
            invariant
                i <= self.data@.len(),
                forall|j: int| 0 <= j < i ==> self.data@[j].0@ != key@,
            decreases self.data@.len() - i,
        {
            if bytes_eq(self.data[i].0.as_slice(), key) {
                return Some(i);
            }
            i += 1;
        }
        None
    }

    /// Writes a value under a key, replacing any earlier one.
    pub fn handle_write(&mut self, msg: Write)
        ensures
            final(self)@ == old(self)@.insert(msg.key@, msg.value@),
    {
        proof {
            use_type_invariant(&*self);
        }
        let ghost s0 = self.data@;
        match self.find(msg.key.as_slice()) {
            Some(i) => {
                let mut es: Vec<(Vec<u8>, Vec<u8>)> = Vec::new();
                core::mem::swap(&mut es, &mut self.data);
                es.remove(i);
                proof {
                    let t = es@;
                    assert(t =~= s0.remove(i as int));
                    assert(forall|a: int|
                        0 <= a < t.len() ==> t[a] == (if a < i {
                            s0[a]
                        } else {
                            s0[a + 1]
                        }));
                }
                core::mem::swap(&mut self.data, &mut es);
                proof {
                    let t = self.data@;
                    assert forall|q: Seq<u8>| #[trigger] bytes_map_of(t).contains_key(q)
                        == old(self)@.remove(msg.key@).contains_key(q) && (bytes_map_of(
                        t,
                    ).contains_key(q) ==> bytes_map_of(t)[q] == old(self)@.remove(msg.key@)[q]) by {
                        lemma_bytes_map_contains(t, q);
                        lemma_bytes_map_contains(s0, q);
                        if bytes_map_of(t).contains_key(q) {
                            let a = choose|a: int| 0 <= a < t.len() && t[a].0@ == q;
                            lemma_bytes_map_index(t, a);
                            let b = if a < i {
                                a
                            } else {
                                a + 1
                            };
                            assert(s0[b] == t[a]);
                            lemma_bytes_map_index(s0, b);
                        } else if old(self)@.remove(msg.key@).contains_key(q) {
                            let b = choose|b: int| 0 <= b < s0.len() && s0[b].0@ == q;
                            let a = if b < i {
                                b
                            } else {
                                b - 1
                            };
                            assert(t[a] == s0[b]);
                        }
                    }
                    assert(bytes_map_of(t) =~= old(self)@.remove(msg.key@));
                }
            },
            None => {
                proof {
                    lemma_bytes_map_contains(s0, msg.key@);
                    assert(bytes_map_of(s0) =~= old(self)@.remove(msg.key@));
                }
            },
        }
        let ghost s1 = self.data@;
        proof {
            use_type_invariant(&*self);
            lemma_bytes_map_contains(s1, msg.key@);
        }
        let mut es: Vec<(Vec<u8>, Vec<u8>)> = Vec::new();
        core::mem::swap(&mut es, &mut self.data);
        es.push((msg.key, msg.value));
        core::mem::swap(&mut self.data, &mut es);
        proof {
            assert(s1.push(self.data@.last()).drop_last() =~= s1);
            assert(self.data@.drop_last() =~= s1);
            assert(bytes_map_of(self.data@) =~= old(self)@.insert(
                self.data@.last().0@,
                self.data@.last().1@,
            ));
        }
    }

    /// The value under a key in the local store, if any.
    pub fn handle_local_read(&self, msg: &LocalRead) -> (r: Option<Vec<u8>>)
        ensures
            match r {
                Some(v) => self@.contains_key(msg.key@) && v@ == self@[msg.key@],
                None => !self@.contains_key(msg.key@),
            },
    {
        proof {
            use_type_invariant(&*self);
            lemma_bytes_map_contains(self.data@, msg.key@);
        }
        match self.find(msg.key.as_slice()) {
            Some(i) => {
                proof {
                    lemma_bytes_map_index(self.data@, i as int);
                }
                let mut out: Vec<u8> = Vec::new();
                let v = &self.data[i].1;
                let mut j: usize = 0;
                while j < v.len()
                    invariant
                        j <= v@.len(),
                        v@ == self.data@[i as int].1@,
                        i < self.data@.len(),
                        out@ == v@.take(j as int),
                    decreases v@.len() - j,
                {
                    out.push(v[j]);
                    proof {
                        assert(out@ =~= v@.take(j + 1));
                    }
                    j += 1;
                }
                proof {
                    assert(v@.take(v@.len() as int) =~= v@);
                }
                Some(out)
            },
            None => None,
        }
    }

    /// Answers a read that arrived from a peer: the same lookup the local
    /// path makes.
    pub fn handle_get(&self, key: &[u8]) -> (r: Option<Vec<u8>>)
        ensures
            match r {
                Some(v) => self@.contains_key(key@) && v@ == self@[key@],
                None => !self@.contains_key(key@),
            },
    {
        let mut k: Vec<u8> = Vec::new();
        let mut i: usize = 0;
        while i < key.len()
            invariant
                i <= key@.len(),
                k@ == key@.take(i as int),
            decreases key@.len() - i,
        {
            k.push(key[i]);
            proof {
                assert(k@ =~= key@.take(i + 1));
            }
            i += 1;
        }
        proof {
            assert(key@.take(key@.len() as int) =~= key@);
        }
        self.handle_local_read(&LocalRead { key: k })
    }
}

/// The cluster-wide lookup's decision: of the answers the connected nodes
/// gave, in the order they resolved, the first that holds a value.
pub fn first_found(results: &Vec<Option<Vec<u8>>>) -> (r: Option<Vec<u8>>)
    ensures
        r is None ==> forall|i: int| 0 <= i < results@.len() ==> results@[i] is None,
        r matches Some(v) ==> exists|i: int|
            0 <= i < results@.len() && (#[trigger] results@[i] matches Some(w) && w@ == v@) && (
            forall|j: int| 0 <= j < i ==> results@[j] is None),
{
    let mut i: usize = 0;
    while i < results.len()
        invariant
            i <= results@.len(),
            forall|j: int| 0 <= j < i ==> results@[j] is None,
        decreases results@.len() - i,
    {
        match &results[i] {
            Some(v) => {
                let mut out: Vec<u8> = Vec::new();
                let mut j: usize = 0;
                while j < v.len()
                    invariant
                        j <= v@.len(),
                        out@ == v@.take(j as int),
                    decreases v@.len() - j,
                {
                    out.push(v[j]);
                    proof {
                        assert(out@ =~= v@.take(j + 1));
                    }
                    j += 1;
                }
                proof {
                    assert(v@.take(v@.len() as int) =~= v@);
                    assert(results@[i as int] matches Some(w) && w@ == out@);
                }
                return Some(out);
            },
            None => {},
        }
        i += 1;
    }
    None
}

} // verus!
