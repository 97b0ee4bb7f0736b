//! The wire protocol: a length-prefixed frame carrying one envelope message
//! that is a handshake, a ping, a pong, a request or a response.
//!
//! The byte layout is the protocol-buffer encoding of the envelope described
//! by the frame grammar: each field is a tag byte followed by a varint, a
//! little-endian fixed 32-bit value, or a length-delimited byte string. The
//! encoders and decoders here are written directly against that grammar and
//! proved to invert each other.

use crate::ids::{
    be_value, bytes_be, lemma_be_value_bound, lemma_be_value_of_bytes, lemma_bytes_be_len,
    lemma_pow256_16, pow256, uuid_bytes, Uuid,
};
use crate::process::DispatchError;
use vstd::prelude::*;

verus! {

// ---------------------------------------------------------------------------
// Base-128 varints
// ---------------------------------------------------------------------------
/// The varint encoding of `v`: seven value bits per byte, least significant
/// group first, high bit set on every byte but the last.
pub open spec fn varint_enc(v: nat) -> Seq<u8>
    decreases v,
{
    if v < 128 {
        seq![v as u8]
    } else {
        seq![(128 + (v % 128)) as u8] + varint_enc(v / 128)
    }
}

/// Reads one varint off the front of `s`: the value and what follows it.
/// Accepts any continuation chain, however long; the caller bounds the value.
pub open spec fn varint_dec(s: Seq<u8>) -> Option<(nat, Seq<u8>)>
    decreases s.len(),
{
    if s.len() == 0 {
        None
    } else if s[0] < 128 {
        Some((s[0] as nat, s.drop_first()))
    } else {
        match varint_dec(s.drop_first()) {
            None => None,
            Some((v, rest)) => Some((((s[0] - 128) + v * 128) as nat, rest)),
        }
    }
}

/// Decoding undoes encoding, whatever follows the varint.
pub proof fn lemma_varint_round_trip(v: nat, rest: Seq<u8>)
    ensures
        varint_dec(varint_enc(v) + rest) == Some((v, rest)),
    decreases v,
{
    let s = varint_enc(v) + rest;
    if v < 128 {
        assert(s.drop_first() =~= rest);
    } else {
        lemma_varint_round_trip(v / 128, rest);
        assert(s.drop_first() =~= varint_enc(v / 128) + rest);
        assert(s[0] == 128 + (v % 128));
        vstd::arithmetic::div_mod::lemma_fundamental_div_mod(v as int, 128);
    }
}

/// Appends the varint encoding of `v` to `dst`.
pub fn write_varint(dst: &mut Vec<u8>, v: u64)
    ensures
        final(dst)@ == old(dst)@ + varint_enc(v as nat),
{
    let mut x = v;
    while x >= 128
        invariant
            dst@ + varint_enc(x as nat) == old(dst)@ + varint_enc(v as nat),
        decreases x,
    {
        let ghost pre = dst@;
        dst.push((128 + (x % 128)) as u8);
        proof {
            assert(dst@ + varint_enc((x / 128) as nat) =~= pre + (seq![
                (128 + (x as nat % 128)) as u8,
            ] + varint_enc((x as nat) / 128)));
        }
        x = x / 128;
    }
    let ghost pre = dst@;
    dst.push(x as u8);
    proof {
        assert(dst@ =~= pre + seq![x as u8]);
    }
}

/// Reads one varint from `buf` starting at `pos`; rejects values that do not
/// fit a `u64` and chains that run off the end of the buffer.
pub fn read_varint(buf: &[u8], pos: usize) -> (r: Result<(u64, usize), DispatchError>)
    requires
        pos <= buf@.len(),
    ensures
        match r {
            Ok((v, p2)) => pos < p2 <= buf@.len() && varint_dec(buf@.skip(pos as int)) == Some(
                (v as nat, buf@.skip(p2 as int)),
            ),
            Err(_) => match varint_dec(buf@.skip(pos as int)) {
                None => true,
                Some((v, _)) => v > u64::MAX,
            },
        },
    decreases buf@.len() - pos,
{
    let ghost s = buf@.skip(pos as int);
    if pos >= buf.len() {
        return Err(DispatchError::MessageFormat);
    }
    let b = buf[pos];
    proof {
        assert(s[0] == buf@[pos as int]);
        assert(s.drop_first() =~= buf@.skip(pos as int + 1));
    }
    if b < 128 {
        Ok((b as u64, pos + 1))
    } else {
        let low = (b - 128) as u64;
        match read_varint(buf, pos + 1) {
            Err(e) => Err(e),
            Ok((v, p2)) => {
                if v <= (u64::MAX - low) / 128 {
                    proof {
                        assert(v * 128 + low <= u64::MAX) by (nonlinear_arith)
                            requires
                                v <= (u64::MAX - low) / 128,
                                low < 128,
                        ;
                    }
                    Ok((low + v * 128, p2))
                } else {
                    proof {
                        assert(v * 128 + low > u64::MAX) by (nonlinear_arith)
                            requires
                                v > (u64::MAX - low) / 128,
                                low < 128,
                        ;
                    }
                    Err(DispatchError::MessageFormat)
                }
            },
        }
    }
}

// ---------------------------------------------------------------------------
// Correlation ids on the wire
// ---------------------------------------------------------------------------
/// The two's-complement 64-bit reading of a correlation id, the value its
/// varint carries.
pub open spec fn u64_of_i64(c: i64) -> nat {
    if c >= 0 {
        c as nat
    } else {
        (c + 0x1_0000_0000_0000_0000) as nat
    }
}

/// The correlation id a wire value stands for.
pub open spec fn i64_of_u64(v: nat) -> i64 {
    if v < 0x8000_0000_0000_0000 {
        v as i64
    } else {
        (v - 0x1_0000_0000_0000_0000) as i64
    }
}

/// A correlation id survives the trip through its wire value.
pub proof fn lemma_i64_round_trip(c: i64)
    ensures
        u64_of_i64(c) <= u64::MAX,
        i64_of_u64(u64_of_i64(c)) == c,
{
}

/// The wire value of a correlation id.
pub fn i64_to_wire(c: i64) -> (r: u64)
    ensures
        r as nat == u64_of_i64(c),
{
    if c >= 0 {
        c as u64
    } else {
        ((c - i64::MIN) as u64) + 0x8000_0000_0000_0000
    }
}

/// The table key a correlation id is tracked under: its wire value.
pub open spec fn corr_key(c: i64) -> u128 {
    u64_of_i64(c) as u128
}

/// The correlation id of a wire value.
pub fn wire_to_i64(v: u64) -> (r: i64)
    ensures
        r == i64_of_u64(v as nat),
{
    if v < 0x8000_0000_0000_0000 {
        v as i64
    } else {
        ((v - 0x8000_0000_0000_0000) as i64) + i64::MIN
    }
}

// ---------------------------------------------------------------------------
// Four-byte integers
// ---------------------------------------------------------------------------
/// The little-endian bytes of a 32-bit value, as a fixed32 field carries it.
pub open spec fn u32_le_bytes(v: u32) -> Seq<u8> {
    seq![
        (v % 256) as u8,
        ((v / 256) % 256) as u8,
        ((v / 0x10000) % 256) as u8,
        ((v / 0x1000000) % 256) as u8,
    ]
}

/// The value of four little-endian bytes.
pub open spec fn u32_of_le(s: Seq<u8>) -> nat {
    (s[0] + s[1] * 256 + s[2] * 0x10000 + s[3] * 0x1000000) as nat
}

pub proof fn lemma_u32_le_round_trip(v: u32)
    ensures
        u32_of_le(u32_le_bytes(v)) == v,
{
    assert((v % 256) + ((v / 256) % 256) * 256 + ((v / 0x10000) % 256) * 0x10000 + ((v
        / 0x1000000) % 256) * 0x1000000 == v) by (bit_vector);
}

/// The big-endian bytes of a 32-bit value, as the frame length prefix
/// carries it.
pub open spec fn u32_be_bytes(v: u32) -> Seq<u8> {
    bytes_be(v as nat, 4)
}

/// Appends the little-endian bytes of `v` to `dst`.
pub fn write_u32_le(dst: &mut Vec<u8>, v: u32)
    ensures
        final(dst)@ == old(dst)@ + u32_le_bytes(v),
{
    let ghost pre = dst@;
    dst.push((v % 256) as u8);
    dst.push(((v / 256) % 256) as u8);
    dst.push(((v / 0x10000) % 256) as u8);
    dst.push(((v / 0x1000000) % 256) as u8);
    proof {
        assert(dst@ =~= pre + u32_le_bytes(v));
    }
}

// ---------------------------------------------------------------------------
// The envelope and its messages
// ---------------------------------------------------------------------------
/// The handshake payload: the sender's node identity.
#[derive(Clone, Debug, PartialEq, Eq)]
pub struct Meta {
    pub nodeid: Uuid,
}

/// The liveness payload; it carries nothing.
#[derive(Clone, Debug, PartialEq, Eq)]
pub struct PingPong {}

/// A method invocation. An absent or nil process id makes it an unaddressed
/// call for the peer node's global handler table; an absent correlation id
/// makes it fire-and-forget.
#[derive(Clone, Debug, PartialEq, Eq)]
pub struct Request {
    pub procid: Option<Uuid>,
    pub correlation: Option<i64>,
    pub method: u32,
    pub body: Vec<u8>,
}

/// The answer to a correlated request: exactly one of a success body or a
/// numeric error code.
#[derive(Clone, Debug, PartialEq, Eq)]
pub struct Response {
    pub correlation: i64,
    pub body: Option<Vec<u8>>,
    pub error: Option<i32>,
}

/// The envelope: every frame carries exactly one of these.
#[derive(Clone, Debug, PartialEq, Eq)]
pub enum Net {
    Meta(Meta),
    Ping,
    Pong,
    Request(Request),
    Response(Response),
}

/// The mathematical shape of a request: its body as a byte sequence.
pub struct RequestView {
    pub procid: Option<Uuid>,
    pub correlation: Option<i64>,
    pub method: u32,
    pub body: Seq<u8>,
}

/// The mathematical shape of a response.
pub struct ResponseView {
    pub correlation: i64,
    pub body: Option<Seq<u8>>,
    pub error: Option<i32>,
}

/// The mathematical shape of an envelope.
pub enum NetView {
    Meta(Meta),
    Ping,
    Pong,
    Request(RequestView),
    Response(ResponseView),
}

impl View for Request {
    type V = RequestView;

    open spec fn view(&self) -> RequestView {
        RequestView {
            procid: self.procid,
            correlation: self.correlation,
            method: self.method,
            body: self.body@,
        }
    }
}

impl View for Response {
    type V = ResponseView;

    open spec fn view(&self) -> ResponseView {
        ResponseView {
            correlation: self.correlation,
            body: match self.body {
                Some(b) => Some(b@),
                None => None,
            },
            error: self.error,
        }
    }
}

impl View for Net {
    type V = NetView;

    open spec fn view(&self) -> NetView {
        match self {
            Net::Meta(x) => NetView::Meta(*x),
            Net::Ping => NetView::Ping,
            Net::Pong => NetView::Pong,
            Net::Request(x) => NetView::Request(x@),
            Net::Response(x) => NetView::Response(x@),
        }
    }
}

/// A response is well formed when it answers with exactly one of a body or
/// a nonnegative error code.
pub open spec fn response_wf(r: ResponseView) -> bool {
    (r.body is Some <==> r.error is None) && (r.error matches Some(e) ==> 0 <= e)
}

/// A well-formed envelope: only responses carry an internal obligation.
pub open spec fn net_wf(m: NetView) -> bool {
    match m {
        NetView::Response(r) => response_wf(r),
        _ => true,
    }
}

/// The encoded handshake message: one length-delimited field holding the 16
/// identity bytes.
pub open spec fn enc_meta(m: Meta) -> Seq<u8> {
    seq![0x0au8] + varint_enc(16) + uuid_bytes(m.nodeid)
}

/// The encoded request: optional process id and correlation, then the fixed
/// 32-bit method id, then the body bytes.
pub open spec fn enc_request(r: RequestView) -> Seq<u8> {
    (match r.procid {
        Some(p) => seq![0x0au8] + varint_enc(16) + uuid_bytes(p),
        None => Seq::empty(),
    }) + (match r.correlation {
        Some(c) => seq![0x10u8] + varint_enc(u64_of_i64(c)),
        None => Seq::empty(),
    }) + seq![0x1du8] + u32_le_bytes(r.method) + seq![0x22u8] + varint_enc(r.body.len()) + r.body
}

/// The encoded response: the correlation id, then whichever of the body and
/// the error code is present.
pub open spec fn enc_response(r: ResponseView) -> Seq<u8> {
    seq![0x08u8] + varint_enc(u64_of_i64(r.correlation)) + (match r.body {
        Some(b) => seq![0x12u8] + varint_enc(b.len()) + b,
        None => Seq::empty(),
    }) + (match r.error {
        Some(e) => seq![0x18u8] + varint_enc(e as nat),
        None => Seq::empty(),
    })
}

/// The encoded envelope: the variant's tag byte, then its message,
/// length-delimited.
pub open spec fn enc_net(m: NetView) -> Seq<u8> {
    match m {
        NetView::Meta(x) => seq![0x0au8] + varint_enc(enc_meta(x).len()) + enc_meta(x),
        NetView::Ping => seq![0x12u8, 0x00u8],
        NetView::Pong => seq![0x1au8, 0x00u8],
        NetView::Request(x) => seq![0x22u8] + varint_enc(enc_request(x).len()) + enc_request(x),
        NetView::Response(x) => seq![0x2au8] + varint_enc(enc_response(x).len()) + enc_response(x),
    }
}

// ---------------------------------------------------------------------------
// The decoding grammar
// ---------------------------------------------------------------------------
/// After a tag byte: a varint length and then that many payload bytes.
pub open spec fn dec_len_bytes(s: Seq<u8>) -> Option<(Seq<u8>, Seq<u8>)> {
    match varint_dec(s) {
        None => None,
        Some((n, r)) => if r.len() < n {
            None
        } else {
            Some((r.take(n as int), r.skip(n as int)))
        },
    }
}

/// The handshake message: exactly one identity field of 16 bytes.
pub open spec fn dec_meta(s: Seq<u8>) -> Option<Meta> {
    if s.len() >= 1 && s[0] == 0x0au8 {
        match dec_len_bytes(s.drop_first()) {
            None => None,
            Some((payload, rest)) => if payload.len() == 16 && rest.len() == 0 {
                Some(Meta { nodeid: Uuid(be_value(payload) as u128) })
            } else {
                None
            },
        }
    } else {
        None
    }
}

/// The optional process id field at the front of a request.
pub open spec fn dec_req_procid(s: Seq<u8>) -> Option<(Option<Uuid>, Seq<u8>)> {
    if s.len() >= 1 && s[0] == 0x0au8 {
        match dec_len_bytes(s.drop_first()) {
            None => None,
            Some((payload, rest)) => if payload.len() == 16 {
                Some((Some(Uuid(be_value(payload) as u128)), rest))
            } else {
                None
            },
        }
    } else {
        Some((None, s))
    }
}

/// The optional correlation field of a request.
pub open spec fn dec_req_corr(s: Seq<u8>) -> Option<(Option<i64>, Seq<u8>)> {
    if s.len() >= 1 && s[0] == 0x10u8 {
        match varint_dec(s.drop_first()) {
            None => None,
            Some((v, rest)) => if v <= u64::MAX {
                Some((Some(i64_of_u64(v)), rest))
            } else {
                None
            },
        }
    } else {
        Some((None, s))
    }
}

/// The required fixed 32-bit method id field.
pub open spec fn dec_req_method(s: Seq<u8>) -> Option<(u32, Seq<u8>)> {
    if s.len() >= 5 && s[0] == 0x1du8 {
        Some((u32_of_le(s.subrange(1, 5)) as u32, s.skip(5)))
    } else {
        None
    }
}

/// A whole request: its four fields in tag order, nothing left over.
pub open spec fn dec_request(s: Seq<u8>) -> Option<RequestView> {
    match dec_req_procid(s) {
        None => None,
        Some((procid, s1)) => match dec_req_corr(s1) {
            None => None,
            Some((correlation, s2)) => match dec_req_method(s2) {
                None => None,
                Some((method, s3)) => if s3.len() >= 1 && s3[0] == 0x22u8 {
                    match dec_len_bytes(s3.drop_first()) {
                        None => None,
                        Some((body, s4)) => if s4.len() == 0 {
                            Some(RequestView { procid, correlation, method, body })
                        } else {
                            None
                        },
                    }
                } else {
                    None
                },
            },
        },
    }
}

/// The optional body field of a response.
pub open spec fn dec_resp_body(s: Seq<u8>) -> Option<(Option<Seq<u8>>, Seq<u8>)> {
    if s.len() >= 1 && s[0] == 0x12u8 {
        match dec_len_bytes(s.drop_first()) {
            None => None,
            Some((payload, rest)) => Some((Some(payload), rest)),
        }
    } else {
        Some((None, s))
    }
}

/// A whole response. A response carrying both a body and an error, or
/// neither, is a protocol violation and does not decode.
pub open spec fn dec_response(s: Seq<u8>) -> Option<ResponseView> {
    if s.len() >= 1 && s[0] == 0x08u8 {
        match varint_dec(s.drop_first()) {
            None => None,
            Some((v, s1)) => if v <= u64::MAX {
                match dec_resp_body(s1) {
                    None => None,
                    Some((body, s2)) => if s2.len() == 0 {
                        if body is Some {
                            Some(
                                ResponseView { correlation: i64_of_u64(v), body, error: None },
                            )
                        } else {
                            None
                        }
                    } else if s2[0] == 0x18u8 && body is None {
                        match varint_dec(s2.drop_first()) {
                            None => None,
                            Some((e, s3)) => if e <= i32::MAX && s3.len() == 0 {
                                Some(
                                    ResponseView {
                                        correlation: i64_of_u64(v),
                                        body: None,
                                        error: Some(e as i32),
                                    },
                                )
                            } else {
                                None
                            },
                        }
                    } else {
                        None
                    },
                }
            } else {
                None
            },
        }
    } else {
        None
    }
}

/// A whole envelope: one tag byte, one length-delimited message, nothing
/// left over. Ping and pong payloads are ignored, as liveness needs nothing
/// from them.
pub open spec fn dec_net(s: Seq<u8>) -> Option<NetView> {
    if s.len() >= 1 {
        match dec_len_bytes(s.drop_first()) {
            None => None,
            Some((payload, rest)) => if rest.len() == 0 {
                if s[0] == 0x0au8 {
                    match dec_meta(payload) {
                        None => None,
                        Some(m) => Some(NetView::Meta(m)),
                    }
                } else if s[0] == 0x12u8 {
                    Some(NetView::Ping)
                } else if s[0] == 0x1au8 {
                    Some(NetView::Pong)
                } else if s[0] == 0x22u8 {
                    match dec_request(payload) {
                        None => None,
                        Some(r) => Some(NetView::Request(r)),
                    }
                } else if s[0] == 0x2au8 {
                    match dec_response(payload) {
                        None => None,
                        Some(r) => Some(NetView::Response(r)),
                    }
                } else {
                    None
                }
            } else {
                None
            },
        }
    } else {
        None
    }
}

/// Appends a length-delimited byte string to `dst`.
pub(crate) fn write_len_bytes(dst: &mut Vec<u8>, tag: u8, bytes: &[u8])
    ensures
        final(dst)@ == old(dst)@ + seq![tag] + varint_enc(bytes@.len()) + bytes@,
{
    let ghost pre = dst@;
    dst.push(tag);
    write_varint(dst, bytes.len() as u64);
    let mut i: usize = 0;
    let ghost mid = dst@;
    while i < bytes.len()
        invariant
            i <= bytes@.len(),
            dst@ == mid + bytes@.take(i as int),
        decreases bytes@.len() - i,
    {
        dst.push(bytes[i]);
        proof {
            assert(mid + bytes@.take(i as int) + seq![bytes@[i as int]] =~= mid + bytes@.take(
                i + 1,
            ));
        }
        i += 1;
    }
    proof {
        assert(bytes@.take(bytes@.len() as int) =~= bytes@);
        assert(pre + seq![tag] + varint_enc(bytes@.len()) =~= mid);
        assert(dst@ =~= pre + seq![tag] + varint_enc(bytes@.len()) + bytes@);
    }
}

/// Encodes a request, appending to `dst`.
pub fn encode_request(r: &Request, dst: &mut Vec<u8>)
    ensures
        final(dst)@ == old(dst)@ + enc_request(r@),
{
    let ghost pre = dst@;
    match &r.procid {
        Some(p) => {
            let bytes = p.to_bytes();
            write_len_bytes(dst, 0x0a, bytes.as_slice());
        },
        None => {},
    }
    let ghost s1 = dst@;
    match &r.correlation {
        Some(c) => {
            dst.push(0x10);
            write_varint(dst, i64_to_wire(*c));
            proof {
                assert(dst@ =~= s1 + seq![0x10u8] + varint_enc(u64_of_i64(r.correlation->0)));
            }
        },
        None => {},
    }
    let ghost s2 = dst@;
    dst.push(0x1d);
    write_u32_le(dst, r.method);
    write_len_bytes(dst, 0x22, r.body.as_slice());
    proof {
        assert(dst@ =~= pre + enc_request(r@));
    }
}

/// Encodes a response, appending to `dst`. A well-formed response is
/// expected: the caller settles on a body or an error first.
pub fn encode_response(r: &Response, dst: &mut Vec<u8>)
    requires
        response_wf(r@),
    ensures
        final(dst)@ == old(dst)@ + enc_response(r@),
{
    let ghost pre = dst@;
    dst.push(0x08);
    write_varint(dst, i64_to_wire(r.correlation));
    let ghost s1 = dst@;
    proof {
        assert(s1 =~= pre + seq![0x08u8] + varint_enc(u64_of_i64(r.correlation)));
    }
    match &r.body {
        Some(b) => {
            write_len_bytes(dst, 0x12, b.as_slice());
        },
        None => {},
    }
    let ghost s2 = dst@;
    match &r.error {
        Some(e) => {
            dst.push(0x18);
            write_varint(dst, *e as u64);
            proof {
                assert(dst@ =~= s2 + seq![0x18u8] + varint_enc(r.error->0 as nat));
            }
        },
        None => {},
    }
    proof {
        assert(dst@ =~= pre + enc_response(r@));
    }
}

/// Encodes one envelope into a fresh buffer.
pub fn encode_net(m: &Net) -> (r: Vec<u8>)
    requires
        net_wf(m@),
    ensures
        r@ == enc_net(m@),
{
    let mut out: Vec<u8> = Vec::new();
    match m {
        Net::Meta(x) => {
            let mut body: Vec<u8> = Vec::new();
            let bytes = x.nodeid.to_bytes();
            write_len_bytes(&mut body, 0x0a, bytes.as_slice());
            proof {
                assert(body@ =~= enc_meta(*x));
            }
            write_len_bytes(&mut out, 0x0a, body.as_slice());
            proof {
                assert(out@ =~= enc_net(m@));
            }
        },
        Net::Ping => {
            out.push(0x12);
            out.push(0x00);
            proof {
                assert(out@ =~= enc_net(m@));
            }
        },
        Net::Pong => {
            out.push(0x1a);
            out.push(0x00);
            proof {
                assert(out@ =~= enc_net(m@));
            }
        },
        Net::Request(x) => {
            let mut body: Vec<u8> = Vec::new();
            encode_request(x, &mut body);
            proof {
                assert(body@ =~= enc_request(x@));
            }
            write_len_bytes(&mut out, 0x22, body.as_slice());
            proof {
                assert(out@ =~= enc_net(m@));
            }
        },
        Net::Response(x) => {
            let mut body: Vec<u8> = Vec::new();
            encode_response(x, &mut body);
            proof {
                assert(body@ =~= enc_response(x@));
            }
            write_len_bytes(&mut out, 0x2a, body.as_slice());
            proof {
                assert(out@ =~= enc_net(m@));
            }
        },
    }
    out
}

// ---------------------------------------------------------------------------
// Round trips
// ---------------------------------------------------------------------------
/// A length-delimited field reads back its payload, whatever follows it.
pub proof fn lemma_len_bytes_round_trip(payload: Seq<u8>, rest: Seq<u8>)
    ensures
        dec_len_bytes(varint_enc(payload.len()) + payload + rest) == Some((payload, rest)),
{
    lemma_varint_round_trip(payload.len(), payload + rest);
    assert(varint_enc(payload.len()) + payload + rest =~= varint_enc(payload.len()) + (payload
        + rest));
    let r = (payload + rest);
    assert(r.take(payload.len() as int) =~= payload);
    assert(r.skip(payload.len() as int) =~= rest);
}

/// An identifier's wire bytes read back its value.
pub proof fn lemma_uuid_value(p: Uuid)
    ensures
        be_value(uuid_bytes(p)) == p.0,
        uuid_bytes(p).len() == 16,
{
    lemma_be_value_of_bytes(p.0 as nat, 16);
    lemma_pow256_16();
    vstd::arithmetic::div_mod::lemma_small_mod(p.0 as nat, pow256(16));
    lemma_bytes_be_len(p.0 as nat, 16);
}

/// Decoding a handshake message undoes encoding it.
pub proof fn lemma_meta_round_trip(m: Meta)
    ensures
        dec_meta(enc_meta(m)) == Some(m),
{
    let s = enc_meta(m);
    lemma_uuid_value(m.nodeid);
    assert(s.drop_first() =~= varint_enc(16) + uuid_bytes(m.nodeid) + Seq::<u8>::empty());
    assert(varint_enc(uuid_bytes(m.nodeid).len()) == varint_enc(16));
    lemma_len_bytes_round_trip(uuid_bytes(m.nodeid), Seq::<u8>::empty());
}

/// Decoding a request undoes encoding it.
#[verifier::rlimit(80)]
pub proof fn lemma_request_round_trip(r: RequestView)
    ensures
        dec_request(enc_request(r)) == Some(r),
{
    let a = match r.procid {
        Some(p) => seq![0x0au8] + varint_enc(16) + uuid_bytes(p),
        None => Seq::<u8>::empty(),
    };
    let b = match r.correlation {
        Some(c) => seq![0x10u8] + varint_enc(u64_of_i64(c)),
        None => Seq::<u8>::empty(),
    };
    let cd = seq![0x1du8] + u32_le_bytes(r.method);
    let d = seq![0x22u8] + varint_enc(r.body.len()) + r.body;
    let s = enc_request(r);
    assert(s =~= a + (b + (cd + d)));
    let s1 = b + (cd + d);
    // stage 1: the optional process id
    match r.procid {
        Some(p) => {
            lemma_uuid_value(p);
            assert(s[0] == 0x0au8);
            assert(s.drop_first() =~= varint_enc(16) + uuid_bytes(p) + s1);
            assert(varint_enc(uuid_bytes(p).len()) == varint_enc(16));
            lemma_len_bytes_round_trip(uuid_bytes(p), s1);
            assert(dec_req_procid(s) == Some((Some(p), s1)));
        },
        None => {
            assert(s =~= s1);
            match r.correlation {
                Some(_) => {
                    assert(s[0] == 0x10u8);
                },
                None => {
                    assert(s[0] == 0x1du8);
                },
            }
            assert(dec_req_procid(s) == Some((None::<Uuid>, s)));
        },
    }
    // stage 2: the optional correlation id
    let s2 = cd + d;
    match r.correlation {
        Some(c) => {
            lemma_i64_round_trip(c);
            assert(s1[0] == 0x10u8);
            assert(s1.drop_first() =~= varint_enc(u64_of_i64(c)) + s2);
            lemma_varint_round_trip(u64_of_i64(c), s2);
            assert(dec_req_corr(s1) == Some((Some(c), s2)));
        },
        None => {
            assert(s1 =~= s2);
            assert(s1[0] == 0x1du8);
            assert(dec_req_corr(s1) == Some((None::<i64>, s1)));
        },
    }
    // stage 3: the method id
    assert(s2.len() >= 5 + 2);
    assert(s2[0] == 0x1du8);
    assert(s2.subrange(1, 5) =~= u32_le_bytes(r.method));
    lemma_u32_le_round_trip(r.method);
    assert(s2.skip(5) =~= d);
    assert(dec_req_method(s2) == Some((r.method, d)));
    // stage 4: the body
    assert(d[0] == 0x22u8);
    assert(d.drop_first() =~= varint_enc(r.body.len()) + r.body + Seq::<u8>::empty());
    lemma_len_bytes_round_trip(r.body, Seq::<u8>::empty());
    assert(dec_request(s) == Some(
        RequestView {
            procid: r.procid,
            correlation: r.correlation,
            method: r.method,
            body: r.body,
        },
    ));
}

/// Decoding a well-formed response undoes encoding it.
pub proof fn lemma_response_round_trip(r: ResponseView)
    requires
        response_wf(r),
    ensures
        dec_response(enc_response(r)) == Some(r),
{
    let corr = seq![0x08u8] + varint_enc(u64_of_i64(r.correlation));
    let b = match r.body {
        Some(body) => seq![0x12u8] + varint_enc(body.len()) + body,
        None => Seq::<u8>::empty(),
    };
    let e = match r.error {
        Some(err) => seq![0x18u8] + varint_enc(err as nat),
        None => Seq::<u8>::empty(),
    };
    let s = enc_response(r);
    assert(s =~= corr + (b + e));
    let s1 = b + e;
    lemma_i64_round_trip(r.correlation);
    assert(s[0] == 0x08u8);
    assert(s.drop_first() =~= varint_enc(u64_of_i64(r.correlation)) + s1);
    lemma_varint_round_trip(u64_of_i64(r.correlation), s1);
    match r.body {
        Some(body) => {
            assert(r.error is None);
            assert(s1 =~= b);
            assert(s1[0] == 0x12u8);
            assert(s1.drop_first() =~= varint_enc(body.len()) + body + Seq::<u8>::empty());
            lemma_len_bytes_round_trip(body, Seq::<u8>::empty());
            assert(dec_resp_body(s1) == Some((Some(body), Seq::<u8>::empty())));
        },
        None => {
            let err = r.error->0;
            assert(s1 =~= e);
            assert(s1[0] == 0x18u8);
            assert(dec_resp_body(s1) == Some((None::<Seq<u8>>, s1)));
            assert(s1.drop_first() =~= varint_enc(err as nat) + Seq::<u8>::empty());
            lemma_varint_round_trip(err as nat, Seq::<u8>::empty());
            assert((err as nat) as i32 == err);
        },
    }
}

// ---------------------------------------------------------------------------
// Frames
// ---------------------------------------------------------------------------
/// A framed envelope: a four-byte big-endian length, then the envelope's
/// bytes. Meaningful for envelopes whose encoding fits the length prefix.
pub open spec fn frame_enc(m: NetView) -> Seq<u8> {
    u32_be_bytes(enc_net(m).len() as u32) + enc_net(m)
}

/// Splits one frame off the front of a byte stream: the payload and what
/// follows. `None` means the stream does not hold a whole frame yet; this is
/// never an error, more bytes may still arrive.
pub open spec fn frame_split(s: Seq<u8>) -> Option<(Seq<u8>, Seq<u8>)> {
    if s.len() < 4 {
        None
    } else {
        let n = be_value(s.take(4)) as int;
        if s.len() < 4 + n {
            None
        } else {
            Some((s.subrange(4, 4 + n), s.skip(4 + n)))
        }
    }
}

/// Decoding undoes framing: the frame of a well-formed envelope splits into
/// exactly its encoding, and that encoding reads back as the envelope.
pub proof fn lemma_frame_round_trip(m: NetView)
    requires
        net_wf(m),
        enc_net(m).len() <= u32::MAX,
    ensures
        frame_split(frame_enc(m)) == Some((enc_net(m), Seq::<u8>::empty())),
        dec_net(enc_net(m)) == Some(m),
{
    let body = enc_net(m);
    let n = body.len();
    let s = frame_enc(m);
    lemma_bytes_be_len(n, 4);
    lemma_be_value_of_bytes(n, 4);
    crate::ids::lemma_pow256_4();
    vstd::arithmetic::div_mod::lemma_small_mod(n, pow256(4));
    assert(s.take(4) =~= u32_be_bytes(n as u32));
    assert(be_value(s.take(4)) == n);
    assert(s.subrange(4, 4 + n as int) =~= body);
    assert(s.skip(4 + n as int) =~= Seq::<u8>::empty());
    lemma_net_round_trip(m);
}

/// Decoding an envelope's bytes undoes encoding it.
pub proof fn lemma_net_round_trip(m: NetView)
    requires
        net_wf(m),
    ensures
        dec_net(enc_net(m)) == Some(m),
{
    let s = enc_net(m);
    match m {
        NetView::Meta(x) => {
            let p = enc_meta(x);
            assert(s[0] == 0x0au8);
            assert(s.drop_first() =~= varint_enc(p.len()) + p + Seq::<u8>::empty());
            lemma_len_bytes_round_trip(p, Seq::<u8>::empty());
            lemma_meta_round_trip(x);
        },
        NetView::Ping => {
            assert(s[0] == 0x12u8);
            assert(s.drop_first() =~= varint_enc(0) + Seq::<u8>::empty() + Seq::<u8>::empty());
            lemma_len_bytes_round_trip(Seq::<u8>::empty(), Seq::<u8>::empty());
        },
        NetView::Pong => {
            assert(s[0] == 0x1au8);
            assert(s.drop_first() =~= varint_enc(0) + Seq::<u8>::empty() + Seq::<u8>::empty());
            lemma_len_bytes_round_trip(Seq::<u8>::empty(), Seq::<u8>::empty());
        },
        NetView::Request(x) => {
            let p = enc_request(x);
            assert(s[0] == 0x22u8);
            assert(s.drop_first() =~= varint_enc(p.len()) + p + Seq::<u8>::empty());
            lemma_len_bytes_round_trip(p, Seq::<u8>::empty());
            lemma_request_round_trip(x);
        },
        NetView::Response(x) => {
            let p = enc_response(x);
            assert(s[0] == 0x2au8);
            assert(s.drop_first() =~= varint_enc(p.len()) + p + Seq::<u8>::empty());
            lemma_len_bytes_round_trip(p, Seq::<u8>::empty());
            lemma_response_round_trip(x);
        },
    }
}

/// No truncation of a valid frame is an error: every strict prefix still
/// waits for more bytes.
pub proof fn lemma_truncated_frame_needs_more(m: NetView, n: int)
    requires
        enc_net(m).len() <= u32::MAX,
        0 <= n < frame_enc(m).len(),
    ensures
        frame_split(frame_enc(m).take(n)) is None,
{
    let s = frame_enc(m);
    let t = s.take(n);
    if n >= 4 {
        let body = enc_net(m);
        lemma_bytes_be_len(body.len(), 4);
        lemma_be_value_of_bytes(body.len(), 4);
        crate::ids::lemma_pow256_4();
        vstd::arithmetic::div_mod::lemma_small_mod(body.len(), pow256(4));
        assert(t.take(4) =~= u32_be_bytes(body.len() as u32));
        assert(be_value(t.take(4)) == body.len());
        assert(t.len() < 4 + body.len());
    }
}


// ---------------------------------------------------------------------------
// Executable decoders
// ---------------------------------------------------------------------------
/// What a varint leaves behind is strictly shorter than what it was read
/// from.
pub proof fn lemma_varint_dec_rest(s: Seq<u8>)
    ensures
        varint_dec(s) matches Some((v, rest)) ==> rest.len() < s.len(),
    decreases s.len(),
{
    if s.len() > 0 && s[0] >= 128 {
        lemma_varint_dec_rest(s.drop_first());
    }
}

/// Reads a length-delimited byte string from `buf` starting at `pos`,
/// after its tag.
pub(crate) fn read_len_bytes(buf: &[u8], pos: usize) -> (r: Result<(Vec<u8>, usize), DispatchError>)
    requires
        pos <= buf@.len(),
    ensures
        match r {
            Ok((v, p2)) => p2 <= buf@.len() && dec_len_bytes(buf@.skip(pos as int)) == Some(
                (v@, buf@.skip(p2 as int)),
            ),
            Err(_) => dec_len_bytes(buf@.skip(pos as int)) is None,
        },
{
    let ghost s = buf@.skip(pos as int);
    let blen: usize = buf.len();
    match read_varint(buf, pos) {
        Err(e) => {
            proof {
                lemma_varint_dec_rest(s);
                assert(s.len() <= blen);
            }
            Err(e)
        },
        Ok((n, p1)) => {
            if n > (blen - p1) as u64 {
                proof {
                    let rest = buf@.skip(p1 as int);
                    assert(rest.len() == buf@.len() - p1);
                    assert(rest.len() < n as nat);
                    assert(dec_len_bytes(s) is None);
                }
                return Err(DispatchError::MessageFormat);
            }
            let nlen: usize = n as usize;
            proof {
                assert(nlen == n);
            }
            let n = nlen;
            let mut out: Vec<u8> = Vec::new();
            let mut i: usize = 0;
            while i < n
                invariant
                    i <= n,
                    p1 + n <= blen,
                    blen == buf@.len(),
                    out@ == buf@.subrange(p1 as int, p1 + i),
                decreases n - i,
            {
                out.push(buf[p1 + i]);
                proof {
                    assert(out@ =~= buf@.subrange(p1 as int, p1 + i + 1));
                }
                i += 1;
            }
            proof {
                let rest = buf@.skip(p1 as int);
                assert(rest.take(n as int) =~= buf@.subrange(p1 as int, p1 + n as int));
                assert(rest.skip(n as int) =~= buf@.skip(p1 + n as int));
                assert(rest.len() == buf@.len() - p1);
                assert(!(rest.len() < n));
                assert(out@ == rest.take(n as int));
                assert(dec_len_bytes(s) == Some((out@, buf@.skip(p1 + n as int))));
            }
            Ok((out, p1 + n))
        },
    }
}

/// Decodes a handshake message from exactly `buf`.
pub fn decode_meta(buf: &[u8]) -> (r: Result<Meta, DispatchError>)
    ensures
        match dec_meta(buf@) {
            Some(m) => r == Ok::<Meta, DispatchError>(m),
            None => r is Err,
        },
{
    proof {
        if buf@.len() >= 1 {
            assert(buf@.drop_first() =~= buf@.skip(1));
        }
    }
    if buf.len() >= 1 && buf[0] == 0x0a {
        match read_len_bytes(buf, 1) {
            Ok((payload, p2)) => {
                if payload.len() == 16 && p2 == buf.len() {
                    proof {
                        assert(buf@.skip(p2 as int) =~= Seq::<u8>::empty());
                        lemma_be_value_bound(payload@);
                        lemma_pow256_16();
                    }
                    let id = crate::util::uuid(payload.as_slice());
                    Ok(Meta { nodeid: id })
                } else {
                    proof {
                        if p2 < buf@.len() {
                            assert(buf@.skip(p2 as int).len() > 0);
                        }
                    }
                    Err(DispatchError::MessageFormat)
                }
            },
            Err(e) => Err(e),
        }
    } else {
        Err(DispatchError::MessageFormat)
    }
}

/// Decodes a request from exactly `buf`.
#[verifier::rlimit(50)]
pub fn decode_request(buf: &[u8]) -> (r: Result<Request, DispatchError>)
    ensures
        match dec_request(buf@) {
            Some(v) => r matches Ok(x) && x@ == v,
            None => r is Err,
        },
{
    let ghost s = buf@;
    // the optional process id
    let procid: Option<Uuid>;
    let mut pos: usize;
    if buf.len() >= 1 && buf[0] == 0x0a {
        proof {
            assert(s.drop_first() =~= s.skip(1));
        }
        match read_len_bytes(buf, 1) {
            Ok((payload, p2)) => {
                if payload.len() == 16 {
                    proof {
                        lemma_be_value_bound(payload@);
                        lemma_pow256_16();
                    }
                    procid = Some(crate::util::uuid(payload.as_slice()));
                    pos = p2;
                } else {
                    return Err(DispatchError::MessageFormat);
                }
            },
            Err(e) => {
                return Err(e);
            },
        }
    } else {
        procid = None;
        pos = 0;
    }
    assert(dec_req_procid(s) == Some((procid, s.skip(pos as int))));
    let ghost s1 = s.skip(pos as int);
    // the optional correlation id
    let correlation: Option<i64>;
    if pos < buf.len() && buf[pos] == 0x10 {
        proof {
            assert(s1[0] == buf@[pos as int]);
            assert(s1.drop_first() =~= s.skip(pos as int + 1));
        }
        match read_varint(buf, pos + 1) {
            Ok((v, p2)) => {
                correlation = Some(wire_to_i64(v));
                pos = p2;
            },
            Err(e) => {
                return Err(e);
            },
        }
    } else {
        correlation = None;
    }
    assert(dec_req_corr(s1) == Some((correlation, s.skip(pos as int))));
    let ghost s2 = s.skip(pos as int);
    // the method id
    if !(pos < buf.len() && buf.len() - pos >= 5 && buf[pos] == 0x1d) {
        proof {
            if s2.len() >= 5 {
                assert(s2[0] == buf@[pos as int]);
            }
        }
        return Err(DispatchError::MessageFormat);
    }
    let method: u32 = buf[pos + 1] as u32 + (buf[pos + 2] as u32) * 256 + (buf[pos + 3] as u32)
        * 0x10000 + (buf[pos + 4] as u32) * 0x1000000;
    proof {
        assert(s2[0] == buf@[pos as int]);
        assert(s2.subrange(1, 5) =~= buf@.subrange(pos + 1, pos + 5));
        assert(u32_of_le(s2.subrange(1, 5)) == method);
        assert(s2.skip(5) =~= s.skip(pos + 5));
    }
    pos = pos + 5;
    assert(dec_req_method(s2) == Some((method, s.skip(pos as int))));
    let ghost s3 = s.skip(pos as int);
    // the body
    if !(pos < buf.len() && buf[pos] == 0x22) {
        proof {
            if s3.len() >= 1 {
                assert(s3[0] == buf@[pos as int]);
            }
        }
        return Err(DispatchError::MessageFormat);
    }
    proof {
        assert(s3[0] == buf@[pos as int]);
        assert(s3.drop_first() =~= s.skip(pos as int + 1));
    }
    match read_len_bytes(buf, pos + 1) {
        Ok((body, p2)) => {
            if p2 == buf.len() {
                proof {
                    assert(s.skip(p2 as int) =~= Seq::<u8>::empty());
                }
                Ok(Request { procid, correlation, method, body })
            } else {
                proof {
                    assert(s.skip(p2 as int).len() > 0);
                }
                Err(DispatchError::MessageFormat)
            }
        },
        Err(e) => Err(e),
    }
}

/// Decodes a response from exactly `buf`. A response carrying both a body
/// and an error code, or neither, is rejected.
pub fn decode_response(buf: &[u8]) -> (r: Result<Response, DispatchError>)
    ensures
        match dec_response(buf@) {
            Some(v) => r matches Ok(x) && x@ == v,
            None => r is Err,
        },
{
    let ghost s = buf@;
    if !(buf.len() >= 1 && buf[0] == 0x08) {
        return Err(DispatchError::MessageFormat);
    }
    proof {
        assert(s.drop_first() =~= s.skip(1));
    }
    let correlation: i64;
    let mut pos: usize;
    match read_varint(buf, 1) {
        Ok((v, p1)) => {
            correlation = wire_to_i64(v);
            pos = p1;
        },
        Err(e) => {
            return Err(e);
        },
    }
    let ghost s1 = s.skip(pos as int);
    // the optional body
    let body: Option<Vec<u8>>;
    if pos < buf.len() && buf[pos] == 0x12 {
        proof {
            assert(s1[0] == buf@[pos as int]);
            assert(s1.drop_first() =~= s.skip(pos as int + 1));
        }
        match read_len_bytes(buf, pos + 1) {
            Ok((payload, p2)) => {
                body = Some(payload);
                pos = p2;
            },
            Err(e) => {
                return Err(e);
            },
        }
    } else {
        proof {
            if s1.len() >= 1 {
                assert(s1[0] == buf@[pos as int]);
            }
        }
        body = None;
    }
    let ghost bodyview = (match body {
        Some(ref b) => Some::<Seq<u8>>(b@),
        None => None::<Seq<u8>>,
    });
    assert(dec_resp_body(s1) == Some((bodyview, s.skip(pos as int))));
    let ghost s2 = s.skip(pos as int);
    // the optional error code: exactly one of the two must be present
    if pos == buf.len() {
        proof {
            assert(s2 =~= Seq::<u8>::empty());
        }
        match body {
            Some(b) => Ok(Response { correlation, body: Some(b), error: None }),
            None => Err(DispatchError::MessageFormat),
        }
    } else {
        proof {
            assert(s2[0] == buf@[pos as int]);
        }
        if buf[pos] == 0x18 && body.is_none() {
            proof {
                assert(s2.drop_first() =~= s.skip(pos as int + 1));
            }
            match read_varint(buf, pos + 1) {
                Ok((e, p3)) => {
                    if e <= 0x7fff_ffff && p3 == buf.len() {
                        proof {
                            assert(s.skip(p3 as int) =~= Seq::<u8>::empty());
                        }
                        Ok(Response { correlation, body: None, error: Some(e as i32) })
                    } else {
                        proof {
                            if p3 < buf@.len() {
                                assert(s.skip(p3 as int).len() > 0);
                            }
                        }
                        Err(DispatchError::MessageFormat)
                    }
                },
                Err(e) => Err(e),
            }
        } else {
            Err(DispatchError::MessageFormat)
        }
    }
}

/// Decodes one envelope from exactly `buf`.
pub fn decode_net(buf: &[u8]) -> (r: Result<Net, DispatchError>)
    ensures
        match dec_net(buf@) {
            Some(v) => r matches Ok(x) && x@ == v,
            None => r is Err,
        },
{
    let ghost s = buf@;
    if buf.len() < 1 {
        return Err(DispatchError::MessageFormat);
    }
    proof {
        assert(s.drop_first() =~= s.skip(1));
    }
    match read_len_bytes(buf, 1) {
        Err(e) => Err(e),
        Ok((payload, p2)) => {
            if p2 != buf.len() {
                proof {
                    assert(s.skip(p2 as int).len() > 0);
                }
                return Err(DispatchError::MessageFormat);
            }
            proof {
                assert(s.skip(p2 as int) =~= Seq::<u8>::empty());
            }
            let tag = buf[0];
            if tag == 0x0a {
                match decode_meta(payload.as_slice()) {
                    Ok(m) => Ok(Net::Meta(m)),
                    Err(e) => Err(e),
                }
            } else if tag == 0x12 {
                Ok(Net::Ping)
            } else if tag == 0x1a {
                Ok(Net::Pong)
            } else if tag == 0x22 {
                match decode_request(payload.as_slice()) {
                    Ok(m) => Ok(Net::Request(m)),
                    Err(e) => Err(e),
                }
            } else if tag == 0x2a {
                match decode_response(payload.as_slice()) {
                    Ok(m) => Ok(Net::Response(m)),
                    Err(e) => Err(e),
                }
            } else {
                Err(DispatchError::MessageFormat)
            }
        },
    }
}

// ---------------------------------------------------------------------------
// The frame codec
// ---------------------------------------------------------------------------
/// Turns envelopes into length-prefixed frames and frames back into
/// envelopes, over a growable byte buffer.
#[derive(Debug, Copy, Clone)]
pub struct NetCodec;

impl NetCodec {
    /// Appends one frame carrying `item` to `dst`. Fails, writing nothing,
    /// only when the encoded envelope outgrows the 32-bit length prefix.
    pub fn encode(&self, item: &Net, dst: &mut Vec<u8>) -> (r: Result<(), DispatchError>)
        requires
            net_wf(item@),
        ensures
            r matches Ok(_) ==> enc_net(item@).len() <= u32::MAX && final(dst)@ == old(dst)@
                + frame_enc(item@),
            r is Err ==> enc_net(item@).len() > u32::MAX && final(dst)@ == old(dst)@,
    {
        let body = encode_net(item);
        if body.len() > 0xffff_ffff_usize {
            return Err(DispatchError::MessageFormat);
        }
        let n = body.len() as u32;
        let ghost pre = dst@;
        dst.push((n / 0x1000000) as u8);
        dst.push(((n / 0x10000) % 256) as u8);
        dst.push(((n / 256) % 256) as u8);
        dst.push((n % 256) as u8);
        proof {
            crate::ids::lemma_bytes_be_index(n as nat, 4);
            reveal_with_fuel(pow256, 5);
            assert(dst@ =~= pre + u32_be_bytes(n));
        }
        let ghost mid = dst@;
        let mut i: usize = 0;
        while i < body.len()
            invariant
                i <= body@.len(),
                dst@ == mid + body@.take(i as int),
            decreases body@.len() - i,
        {
            dst.push(body[i]);
            proof {
                assert(mid + body@.take(i as int) + seq![body@[i as int]] =~= mid + body@.take(
                    i + 1,
                ));
            }
            i += 1;
        }
        proof {
            assert(body@.take(body@.len() as int) =~= body@);
            assert(dst@ =~= pre + frame_enc(item@));
        }
        Ok(())
    }

    /// Takes one frame off the front of `src`, if a whole one has arrived,
    /// and decodes it. `Ok(None)` consumes nothing: more bytes are awaited.
    /// A frame whose payload does not decode is an error; the frame is
    /// consumed and the connection is expected to drop.
    pub fn decode(&self, src: &mut Vec<u8>) -> (r: Result<Option<Net>, DispatchError>)
        ensures
            match frame_split(old(src)@) {
                None => r matches Ok(m) && m is None && final(src)@ == old(src)@,
                Some((payload, rest)) => final(src)@ == rest && (match dec_net(payload) {
                    Some(m) => r matches Ok(x) && x matches Some(v) && v@ == m,
                    None => r is Err,
                }),
            },
    {
        let ghost s = src@;
        let slen: usize = src.len();
        if slen < 4 {
            return Ok(None);
        }
        let mut n32: u32 = 0;
        let mut k: usize = 0;
        proof {
            assert(s.take(0) =~= Seq::<u8>::empty());
            crate::ids::lemma_pow256_4();
        }
        while k < 4
            invariant
                k <= 4,
                s.len() >= 4,
                src@ == s,
                n32 == be_value(s.take(k as int)),
            decreases 4 - k,
        {
            proof {
                lemma_be_value_bound(s.take(k as int));
                reveal_with_fuel(pow256, 5);
                assert(n32 * 256 + 255 < 256 * pow256(k as nat)) by (nonlinear_arith)
                    requires
                        n32 < pow256(k as nat),
                ;
                assert(s.take(k + 1).drop_last() =~= s.take(k as int));
                assert(s.take(k + 1).last() == s[k as int]);
            }
            n32 = n32 * 256 + src[k] as u32;
            k += 1;
        }
        proof {
            assert(n32 == be_value(s.take(4)));
        }
        let n = n32 as usize;
        if slen - 4 < n {
            return Ok(None);
        }
        let mut payload: Vec<u8> = Vec::new();
        let mut i: usize = 0;
        while i < n
            invariant
                i <= n,
                4 + n <= slen,
                slen == src@.len(),
                src@ == s,
                payload@ == s.subrange(4, 4 + i),
            decreases n - i,
        {
            payload.push(src[4 + i]);
            proof {
                assert(payload@ =~= s.subrange(4, 4 + i + 1));
            }
            i += 1;
        }
        let mut rest: Vec<u8> = Vec::new();
        let mut j: usize = 4 + n;
        while j < slen
            invariant
                4 + n <= j <= slen,
                slen == src@.len(),
                src@ == s,
                rest@ == s.subrange(4 + n as int, j as int),
            decreases slen - j,
        {
            rest.push(src[j]);
            proof {
                assert(rest@ =~= s.subrange(4 + n as int, j + 1));
            }
            j += 1;
        }
        proof {
            assert(rest@ =~= s.skip(4 + n as int));
        }
        *src = rest;
        match decode_net(payload.as_slice()) {
            Ok(m) => Ok(Some(m)),
            Err(e) => Err(e),
        }
    }
}

} // verus!
