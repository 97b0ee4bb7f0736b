//! Stable identities: every process and every node is named by a 128-bit
//! universally unique identifier, carried on the wire as 16 big-endian bytes.
//! The all-zero identifier is reserved: a request targeted at it is an
//! unaddressed (node-global) call.

use vstd::prelude::*;

verus! {

/// A 128-bit identifier for a process or a node.
///
/// The value is the big-endian interpretation of the 16 wire bytes.
#[derive(Clone, Copy, Debug, PartialEq, Eq, Structural, Hash)]
pub struct Uuid(pub u128);

/// 256 raised to `e`: the number of values a string of `e` bytes can take.
pub open spec fn pow256(e: nat) -> nat
    decreases e,
{
    if e == 0 {
        1
    } else {
        256 * pow256((e - 1) as nat)
    }
}

/// The `n` low-order base-256 digits of `v`, most significant first.
pub open spec fn bytes_be(v: nat, n: nat) -> Seq<u8>
    decreases n,
{
    if n == 0 {
        Seq::empty()
    } else {
        bytes_be(v / 256, (n - 1) as nat).push((v % 256) as u8)
    }
}

/// The big-endian value of a byte sequence.
pub open spec fn be_value(s: Seq<u8>) -> nat
    decreases s.len(),
{
    if s.len() == 0 {
        0
    } else {
        (be_value(s.drop_last()) * 256 + s.last()) as nat
    }
}

/// The 16 wire bytes of an identifier.
pub open spec fn uuid_bytes(u: Uuid) -> Seq<u8> {
    bytes_be(u.0 as nat, 16)
}

pub proof fn lemma_pow256_pos(e: nat)
    ensures
        pow256(e) >= 1,
    decreases e,
{
    if e > 0 {
        lemma_pow256_pos((e - 1) as nat);
    }
}

pub proof fn lemma_bytes_be_len(v: nat, n: nat)
    ensures
        bytes_be(v, n).len() == n,
    decreases n,
{
    if n > 0 {
        lemma_bytes_be_len(v / 256, (n - 1) as nat);
    }
}

/// Reading back the bytes of `v` recovers `v` modulo the range of `n` bytes.
pub proof fn lemma_be_value_of_bytes(v: nat, n: nat)
    ensures
        be_value(bytes_be(v, n)) == v % pow256(n),
    decreases n,
{
    if n == 0 {
        assert(v % 1 == 0) by (nonlinear_arith);
    } else {
        let p = pow256((n - 1) as nat);
        lemma_be_value_of_bytes(v / 256, (n - 1) as nat);
        lemma_bytes_be_len(v / 256, (n - 1) as nat);
        let s = bytes_be(v, n);
        assert(s.drop_last() =~= bytes_be(v / 256, (n - 1) as nat));
        assert(be_value(s) == ((v / 256) % p) * 256 + v % 256);
        lemma_pow256_pos((n - 1) as nat);
        vstd::arithmetic::div_mod::lemma_breakdown(v as int, 256, p as int);
        assert(v % (256 * p) as nat == 256 * ((v / 256) % p) + v % 256);
        assert(pow256(n) == 256 * p);
        assert(((v / 256) % p) * 256 == 256 * ((v / 256) % p)) by (nonlinear_arith);
    }
}

/// A string of `n` bytes always reads back to a value below `pow256(n)`.
pub proof fn lemma_be_value_bound(s: Seq<u8>)
    ensures
        be_value(s) < pow256(s.len()),
    decreases s.len(),
{
    if s.len() > 0 {
        lemma_be_value_bound(s.drop_last());
        let b = be_value(s.drop_last());
        let p = pow256((s.len() - 1) as nat);
        assert(b * 256 + 255 < 256 * p) by (nonlinear_arith)
            requires
                b < p,
        ;
    }
}

/// `pow256(16)` is one more than the largest `u128`.
pub proof fn lemma_pow256_16()
    ensures
        pow256(16) == 0x1_0000_0000_0000_0000_0000_0000_0000_0000,
{
    reveal_with_fuel(pow256, 17);
}

/// `pow256(4)` is one more than the largest `u32`.
pub proof fn lemma_pow256_4()
    ensures
        pow256(4) == 0x1_0000_0000,
{
    reveal_with_fuel(pow256, 5);
}

impl Uuid {
    /// The reserved all-zero identifier, meaning "unaddressed".
    pub fn nil() -> (r: Uuid)
        ensures
            r.0 == 0,
    {
        Uuid(0)
    }

    /// True exactly on the reserved all-zero identifier.
    pub fn is_nil(&self) -> (r: bool)
        ensures
            r == (self.0 == 0),
    {
        self.0 == 0
    }

    /// The 16 wire bytes of this identifier, most significant first.
    pub fn to_bytes(&self) -> (r: Vec<u8>)
        ensures
            r@ == uuid_bytes(*self),
            r@.len() == 16,
    {
        let v0 = self.0;
        let mut low_first: Vec<u8> = Vec::new();
        let mut v: u128 = v0;
        proof {
            assert(v0 as nat / 1 == v0 as nat) by (nonlinear_arith);
        }
        let mut i: usize = 0;
        while i < 16
            invariant
                i <= 16,
                low_first@.len() == i,
                v == v0 as nat / pow256(i as nat),
                forall|j: int|
                    0 <= j < i ==> low_first@[j] == ((v0 as nat / pow256(j as nat)) % 256) as u8,
            decreases 16 - i,
        {
            low_first.push((v % 256) as u8);
            proof {
                lemma_pow256_pos(i as nat);
                vstd::arithmetic::div_mod::lemma_div_denominator(
                    v0 as int,
                    pow256(i as nat) as int,
                    256,
                );
                assert(pow256((i + 1) as nat) == 256 * pow256(i as nat));
                assert(pow256(i as nat) * 256 == 256 * pow256(i as nat)) by (nonlinear_arith);
            }
            v = v / 256;
            i += 1;
        }
        let mut out: Vec<u8> = Vec::new();
        let mut i: usize = 0;
        while i < 16
            invariant
                i <= 16,
                out@.len() == i,
                low_first@.len() == 16,
                forall|j: int|
                    0 <= j < 16 ==> low_first@[j] == ((v0 as nat / pow256(j as nat)) % 256) as u8,
                forall|j: int|
                    0 <= j < i ==> out@[j] == ((v0 as nat / pow256((15 - j) as nat)) % 256) as u8,
            decreases 16 - i,
        {
            out.push(low_first[15 - i]);
            i += 1;
        }
        proof {
            lemma_bytes_be_index(v0 as nat, 16);
            assert(out@ =~= bytes_be(v0 as nat, 16));
        }
        out
    }
}

/// Each byte written by `bytes_be` is the base-256 digit at its place.
pub proof fn lemma_bytes_be_index(v: nat, n: nat)
    ensures
        bytes_be(v, n).len() == n,
        forall|j: int|
            0 <= j < n ==> bytes_be(v, n)[j] == ((v / pow256((n - 1 - j) as nat)) % 256) as u8,
    decreases n,
{
    if n > 0 {
        lemma_bytes_be_index(v / 256, (n - 1) as nat);
        assert forall|j: int| 0 <= j < n implies bytes_be(v, n)[j] == ((v / pow256(
            (n - 1 - j) as nat,
        )) % 256) as u8 by {
            if j < n - 1 {
                let e = (n - 1 - j) as nat;
                assert(bytes_be(v, n)[j] == bytes_be(v / 256, (n - 1) as nat)[j]);
                lemma_pow256_pos((e - 1) as nat);
                lemma_div_of_div(v, pow256((e - 1) as nat));
                assert(pow256(e) == 256 * pow256((e - 1) as nat));
            } else {
                assert(pow256(0) == 1);
                assert(v / 1 == v) by (nonlinear_arith);
            }
        }
    }
}

/// Dividing by 256 and then by `p` is dividing by `256 * p`.
proof fn lemma_div_of_div(v: nat, p: nat)
    requires
        p >= 1,
    ensures
        (v / 256) / p == v / (256 * p),
{
    vstd::arithmetic::div_mod::lemma_div_denominator(v as int, 256, p as int);
}

} // verus!
