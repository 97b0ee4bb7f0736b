//! Small shared pieces: reading an identifier from its wire bytes, the
//! registration envelope for status listeners, and the contract every
//! remotely callable method type satisfies.

use crate::ids::{be_value, lemma_be_value_bound, lemma_pow256_16, pow256, Uuid};
use crate::process::DispatchError;
use crate::{Broadcast, MethodCall};
use vstd::prelude::*;

verus! {

/// Reads an identifier from its 16 wire bytes, most significant first.
pub fn uuid(data: &[u8]) -> (r: Uuid)
    requires
        data@.len() == 16,
    ensures
        r.0 == be_value(data@),
{
    let ghost s = data@;
    let mut v: u128 = 0;
    let mut i: usize = 0;
    proof {
        assert(s.take(0) =~= Seq::<u8>::empty());
    }
    while i < 16
        invariant
            i <= 16,
            data@ == s,
            s.len() == 16,
            v == be_value(s.take(i as int)),
        decreases 16 - i,
    {
        proof {
            lemma_be_value_bound(s.take(i as int));
            lemma_pow256_within_u128((i + 1) as nat);
            assert(v * 256 + 255 < 256 * pow256(i as nat)) by (nonlinear_arith)
                requires
                    v < pow256(i as nat),
            ;
            assert(256 * pow256(i as nat) == pow256((i + 1) as nat));
            assert(s.take(i + 1).drop_last() =~= s.take(i as int));
            assert(s.take(i + 1).last() == s[i as int]);
        }
        v = v * 256 + data[i] as u128;
        i += 1;
    }
    proof {
        assert(s.take(16) =~= s);
    }
    Uuid(v)
}

/// For up to 16 bytes the value range still fits a `u128`.
proof fn lemma_pow256_within_u128(e: nat)
    requires
        e <= 16,
    ensures
        pow256(e) <= pow256(16),
        pow256(16) == 0x1_0000_0000_0000_0000_0000_0000_0000_0000,
    decreases 16 - e,
{
    lemma_pow256_16();
    if e < 16 {
        lemma_pow256_within_u128((e + 1) as nat);
        crate::ids::lemma_pow256_pos(e);
        assert(pow256((e + 1) as nat) == 256 * pow256(e));
        assert(pow256(e) <= 256 * pow256(e)) by (nonlinear_arith)
            requires
                pow256(e) >= 1,
        ;
    }
}

/// Reads the identifier whose 16 wire bytes begin at `pos`.
pub(crate) fn uuid_at(data: &[u8], pos: usize) -> (r: Uuid)
    requires
        pos + 16 <= data@.len(),
    ensures
        r.0 == be_value(data@.subrange(pos as int, pos + 16)),
{
    let ghost s = data@;
    let dlen: usize = data.len();
    let mut v: u128 = 0;
    let mut i: usize = 0;
    proof {
        assert(s.subrange(pos as int, pos as int) =~= Seq::<u8>::empty());
    }
    while i < 16
        invariant
            i <= 16,
            data@ == s,
            dlen == s.len(),
            pos + 16 <= dlen,
            v == be_value(s.subrange(pos as int, pos + i)),
        decreases 16 - i,
    {
        proof {
            lemma_be_value_bound(s.subrange(pos as int, pos + i));
            lemma_pow256_within_u128((i + 1) as nat);
            assert(v * 256 + 255 < 256 * pow256(i as nat)) by (nonlinear_arith)
                requires
                    v < pow256(i as nat),
            ;
            assert(256 * pow256(i as nat) == pow256((i + 1) as nat));
            assert(s.subrange(pos as int, pos + i + 1).drop_last() =~= s.subrange(
                pos as int,
                pos + i,
            ));
            assert(s.subrange(pos as int, pos + i + 1).last() == s[pos + i]);
        }
        v = v * 256 + data[pos + i] as u128;
        i += 1;
    }
    Uuid(v)
}

/// Asks the node controller to deliver connection status events to the
/// listener known to the runtime under this token.
pub struct RegisterRecipient(pub u64);

/// The contract of one remotely callable method: a stable numeric id and a
/// byte serialization for its argument and its result.
///
/// An implementation is normally generated from a service definition; the
/// directory update method in this crate implements it by hand.
pub trait RpcMethod: Sized {
    /// The type a successful call resolves to.
    type Output;

    /// The stable wire id of this method, as a specification-level value.
    spec fn spec_id() -> u32;

    /// The stable wire id of this method.
    fn method_id() -> (r: u32)
        ensures
            r == Self::spec_id(),
    ;

    /// Encode the argument, appending to `b`.
    fn write(&self, b: &mut Vec<u8>) -> Result<(), DispatchError>;

    /// Decode an argument.
    fn read(b: &[u8]) -> Result<Self, DispatchError>;

    /// Decode a result.
    fn read_result(b: &[u8]) -> Result<Self::Output, DispatchError>;

    /// Encode a result, appending to `b`.
    fn write_result(r: &Self::Output, b: &mut Vec<u8>) -> Result<(), DispatchError>;

    /// The argument as a fresh byte buffer.
    fn to_buf(&self) -> Result<Vec<u8>, DispatchError> {
        let mut b: Vec<u8> = Vec::new();
        match self.write(&mut b) {
            Ok(()) => Ok(b),
            Err(e) => Err(e),
        }
    }

    /// Package the argument as a fire-and-forget call on this method.
    fn make_broadcast(&self, id: Option<Uuid>) -> (r: Result<Broadcast, DispatchError>)
        ensures
            r matches Ok(b) ==> b.procid == id && b.method == Self::spec_id(),
    {
        match self.to_buf() {
            Ok(body) => Ok(Broadcast { procid: id, method: Self::method_id(), body }),
            Err(e) => Err(e),
        }
    }

    /// Package the argument as a correlated call on this method.
    fn make_call(&self, id: Option<Uuid>) -> (r: Result<MethodCall, DispatchError>)
        ensures
            r matches Ok(c) ==> c.procid == id && c.method == Self::spec_id(),
    {
        match self.to_buf() {
            Ok(body) => Ok(MethodCall { procid: id, method: Self::method_id(), body }),
            Err(e) => Err(e),
        }
    }
}

} // verus!
