//! The directory synchronization payload: a diff of process ids, packed as
//! 16-byte identifiers, carried as an unaddressed method call with a fixed
//! method id.

use crate::ids::{be_value, uuid_bytes, Uuid};
use crate::process::DispatchError;
use crate::util::RpcMethod;
use crate::wire::{dec_len_bytes, read_len_bytes, varint_enc, write_len_bytes};
use vstd::prelude::*;

verus! {

/// A process directory diff: the ids that started and the ids that stopped
/// since the last broadcast, each packed as consecutive 16-byte
/// identifiers. A full snapshot is the same message with every local id in
/// the new list.
#[derive(Clone, Debug, PartialEq, Eq)]
pub struct ProcessList {
    pub newids: Vec<u8>,
    pub delids: Vec<u8>,
}

/// The mathematical shape of a directory diff.
pub struct ProcessListView {
    pub newids: Seq<u8>,
    pub delids: Seq<u8>,
}

impl View for ProcessList {
    type V = ProcessListView;

    open spec fn view(&self) -> ProcessListView {
        ProcessListView { newids: self.newids@, delids: self.delids@ }
    }
}

/// The packed bytes of a list of identifiers, 16 bytes each.
pub open spec fn packed_ids(ids: Seq<u128>) -> Seq<u8>
    decreases ids.len(),
{
    if ids.len() == 0 {
        Seq::empty()
    } else {
        uuid_bytes(Uuid(ids.first())) + packed_ids(ids.drop_first())
    }
}

/// The identifiers a packed byte string holds; a trailing fragment shorter
/// than one identifier is ignored.
pub open spec fn ids_of(s: Seq<u8>) -> Seq<u128>
    decreases s.len(),
{
    if s.len() < 16 {
        Seq::empty()
    } else {
        seq![be_value(s.take(16)) as u128] + ids_of(s.skip(16))
    }
}

/// Packing one more identifier appends its 16 bytes.
pub proof fn lemma_packed_snoc(ids: Seq<u128>, x: u128)
    ensures
        packed_ids(ids.push(x)) == packed_ids(ids) + uuid_bytes(Uuid(x)),
    decreases ids.len(),
{
    crate::wire::lemma_uuid_value(Uuid(x));
    if ids.len() == 0 {
        assert(ids.push(x).drop_first() =~= Seq::<u128>::empty());
        assert(ids.push(x).first() == x);
        assert(packed_ids(ids.push(x)) == uuid_bytes(Uuid(x)) + packed_ids(
            Seq::<u128>::empty(),
        ));
        assert(packed_ids(Seq::<u128>::empty()) =~= Seq::<u8>::empty());
        assert(uuid_bytes(Uuid(x)) + Seq::<u8>::empty() =~= uuid_bytes(Uuid(x)));
        assert(packed_ids(ids) =~= Seq::<u8>::empty());
        assert(Seq::<u8>::empty() + uuid_bytes(Uuid(x)) =~= uuid_bytes(Uuid(x)));
    } else {
        crate::wire::lemma_uuid_value(Uuid(ids.first()));
        lemma_packed_snoc(ids.drop_first(), x);
        assert(ids.push(x).drop_first() =~= ids.drop_first().push(x));
        assert(ids.push(x).first() == ids.first());
        assert(uuid_bytes(Uuid(ids.first())) + (packed_ids(ids.drop_first()) + uuid_bytes(
            Uuid(x),
        )) =~= (uuid_bytes(Uuid(ids.first())) + packed_ids(ids.drop_first())) + uuid_bytes(
            Uuid(x),
        ));
    }
}

/// Unpacking undoes packing: every list of identifiers survives the trip
/// through its packed bytes.
pub proof fn lemma_ids_of_packed(ids: Seq<u128>)
    ensures
        packed_ids(ids).len() == 16 * ids.len(),
        ids_of(packed_ids(ids)) == ids,
    decreases ids.len(),
{
    if ids.len() == 0 {
        assert(ids_of(packed_ids(ids)) =~= ids);
    } else {
        let chunk = uuid_bytes(Uuid(ids.first()));
        crate::wire::lemma_uuid_value(Uuid(ids.first()));
        lemma_ids_of_packed(ids.drop_first());
        let s = packed_ids(ids);
        assert(s.take(16) =~= chunk);
        assert(s.skip(16) =~= packed_ids(ids.drop_first()));
        assert(ids_of(s) =~= ids);
    }
}

/// The encoded diff: each list as a length-delimited field, present only
/// when it is not empty.
pub open spec fn enc_process_list(l: ProcessListView) -> Seq<u8> {
    (if l.newids.len() == 0 {
        Seq::<u8>::empty()
    } else {
        seq![0x12u8] + varint_enc(l.newids.len()) + l.newids
    }) + (if l.delids.len() == 0 {
        Seq::<u8>::empty()
    } else {
        seq![0x1au8] + varint_enc(l.delids.len()) + l.delids
    })
}

/// The decoded diff: the two optional fields in tag order, nothing left
/// over; an absent field is an empty list.
pub open spec fn dec_process_list(s: Seq<u8>) -> Option<ProcessListView> {
    let (newids, s1) = if s.len() >= 1 && s[0] == 0x12u8 {
        match dec_len_bytes(s.drop_first()) {
            None => (Seq::<u8>::empty(), Option::<Seq<u8>>::None),
            Some((payload, rest)) => (payload, Some(rest)),
        }
    } else {
        (Seq::<u8>::empty(), Some(s))
    };
    match s1 {
        None => None,
        Some(s1) => {
            let (delids, s2) = if s1.len() >= 1 && s1[0] == 0x1au8 {
                match dec_len_bytes(s1.drop_first()) {
                    None => (Seq::<u8>::empty(), Option::<Seq<u8>>::None),
                    Some((payload, rest)) => (payload, Some(rest)),
                }
            } else {
                (Seq::<u8>::empty(), Some(s1))
            };
            match s2 {
                None => None,
                Some(s2) => if s2.len() == 0 {
                    Some(ProcessListView { newids, delids })
                } else {
                    None
                },
            }
        },
    }
}

/// Decoding a diff undoes encoding it. The new list never begins with the
/// delete field's tag, because packed identifiers come in whole 16-byte
/// groups; no such caveat is even needed, as the tags are checked in order.
pub proof fn lemma_process_list_round_trip(l: ProcessListView)
    ensures
        dec_process_list(enc_process_list(l)) == Some(l),
{
    let s = enc_process_list(l);
    if l.newids.len() == 0 {
        assert(l.newids =~= Seq::<u8>::empty());
    }
    if l.delids.len() == 0 {
        assert(l.delids =~= Seq::<u8>::empty());
    }
    let e = (if l.delids.len() == 0 {
        Seq::<u8>::empty()
    } else {
        seq![0x1au8] + varint_enc(l.delids.len()) + l.delids
    });
    if l.newids.len() == 0 {
        assert(s =~= e);
        if l.delids.len() == 0 {
            assert(s.len() == 0);
        } else {
            assert(s[0] == 0x1au8);
            assert(s.drop_first() =~= varint_enc(l.delids.len()) + l.delids + Seq::<u8>::empty());
            crate::wire::lemma_len_bytes_round_trip(l.delids, Seq::<u8>::empty());
        }
    } else {
        assert(s[0] == 0x12u8);
        assert(s.drop_first() =~= varint_enc(l.newids.len()) + l.newids + e);
        crate::wire::lemma_len_bytes_round_trip(l.newids, e);
        if l.delids.len() == 0 {
            assert(e.len() == 0);
        } else {
            assert(e[0] == 0x1au8);
            assert(e.drop_first() =~= varint_enc(l.delids.len()) + l.delids + Seq::<u8>::empty());
            crate::wire::lemma_len_bytes_round_trip(l.delids, Seq::<u8>::empty());
        }
    }
}

/// The directory update method: a diff of the sender's local process set,
/// sent unaddressed to every peer on the gossip interval, and in full to a
/// freshly connected peer.
pub struct Update(pub ProcessList);

impl RpcMethod for Update {
    type Output = ();

    open spec fn spec_id() -> u32 {
        520454116
    }

    /// The stable wire id of the directory update method.
    fn method_id() -> (r: u32) {
        520454116
    }

    fn write(&self, b: &mut Vec<u8>) -> (r: Result<(), DispatchError>)
        ensures
            r matches Ok(_) ==> final(b)@ == old(b)@ + enc_process_list(self.0@),
    {
        let ghost pre = b@;
        if self.0.newids.len() > 0 {
            write_len_bytes(b, 0x12, self.0.newids.as_slice());
        }
        if self.0.delids.len() > 0 {
            write_len_bytes(b, 0x1a, self.0.delids.as_slice());
        }
        proof {
            assert(b@ =~= pre + enc_process_list(self.0@));
        }
        Ok(())
    }

    fn read(b: &[u8]) -> (r: Result<Self, DispatchError>)
        ensures
            match dec_process_list(b@) {
                Some(l) => r matches Ok(u) && u.0@ == l,
                None => r is Err,
            },
    {
        let ghost s = b@;
        let blen: usize = b.len();
        let newids: Vec<u8>;
        let mut pos: usize;
        if blen >= 1 && b[0] == 0x12 {
            proof {
                assert(s.drop_first() =~= s.skip(1));
            }
            match read_len_bytes(b, 1) {
                Ok((payload, p2)) => {
                    newids = payload;
                    pos = p2;
                },
                Err(e) => {
                    return Err(e);
                },
            }
        } else {
            newids = Vec::new();
            pos = 0;
        }
        let ghost s1 = s.skip(pos as int);
        let delids: Vec<u8>;
        if pos < blen && b[pos] == 0x1a {
            proof {
                assert(s1[0] == b@[pos as int]);
                assert(s1.drop_first() =~= s.skip(pos as int + 1));
            }
            match read_len_bytes(b, pos + 1) {
                Ok((payload, p2)) => {
                    delids = payload;
                    pos = p2;
                },
                Err(e) => {
                    return Err(e);
                },
            }
        } else {
            proof {
                if s1.len() >= 1 {
                    assert(s1[0] == b@[pos as int]);
                }
            }
            delids = Vec::new();
        }
        if pos == blen {
            proof {
                assert(s.skip(pos as int) =~= Seq::<u8>::empty());
            }
            Ok(Update(ProcessList { newids, delids }))
        } else {
            proof {
                assert(s.skip(pos as int).len() > 0);
            }
            Err(DispatchError::MessageFormat)
        }
    }

    fn read_result(_b: &[u8]) -> (r: Result<(), DispatchError>) {
        Ok(())
    }

    fn write_result(_r: &(), _b: &mut Vec<u8>) -> (r: Result<(), DispatchError>) {
        Ok(())
    }
}

} // verus!
