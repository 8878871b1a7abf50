//! The bytes carried on one stream. A request is the length of its path as
//! four big-endian bytes, the path, then the body. A response is its status
//! as two big-endian bytes, then the body.
use vstd::prelude::*;

verus! {

/// Four big-endian bytes of `n`.
pub open spec fn be32(n: u32) -> Seq<u8> {
    seq![(n >> 24u32) as u8, (n >> 16u32) as u8, (n >> 8u32) as u8, n as u8]
}

/// The number that four big-endian bytes spell.
pub open spec fn from_be32(b0: u8, b1: u8, b2: u8, b3: u8) -> u32 {
    ((b0 as u32) << 24u32) | ((b1 as u32) << 16u32) | ((b2 as u32) << 8u32) | (b3 as u32)
}

/// Two big-endian bytes of `n`.
pub open spec fn be16(n: u16) -> Seq<u8> {
    seq![(n >> 8u16) as u8, n as u8]
}

/// The number that two big-endian bytes spell.
pub open spec fn from_be16(b0: u8, b1: u8) -> u16 {
    ((b0 as u16) << 8u16) | (b1 as u16)
}

/// The encoding of a request.
pub open spec fn request_bytes(path: Seq<u8>, body: Seq<u8>) -> Seq<u8> {
    be32(path.len() as u32) + path + body
}

/// The path and body that `b` encodes, if it is a well-formed request.
pub open spec fn parse_request(b: Seq<u8>) -> Option<(Seq<u8>, Seq<u8>)> {
    if b.len() < 4 {
        None
    } else {
        let n = from_be32(b[0], b[1], b[2], b[3]) as int;
        if 4 + n <= b.len() {
            Some((b.subrange(4, 4 + n), b.subrange(4 + n, b.len() as int)))
        } else {
            None
        }
    }
}

/// The encoding of a response.
pub open spec fn response_bytes(status: u16, body: Seq<u8>) -> Seq<u8> {
    be16(status) + body
}

/// The status and body that `b` encodes, if it is a well-formed response.
pub open spec fn parse_response(b: Seq<u8>) -> Option<(u16, Seq<u8>)> {
    if b.len() < 2 {
        None
    } else {
        Some((from_be16(b[0], b[1]), b.subrange(2, b.len() as int)))
    }
}

proof fn lemma_be32(n: u32)
    ensures
        from_be32((n >> 24u32) as u8, (n >> 16u32) as u8, (n >> 8u32) as u8, n as u8) == n,
{
    assert(((((n >> 24u32) as u8) as u32) << 24u32) | ((((n >> 16u32) as u8) as u32) << 16u32)
        | ((((n >> 8u32) as u8) as u32) << 8u32) | ((n as u8) as u32) == n) by (bit_vector);
}

proof fn lemma_be16(n: u16)
    ensures
        from_be16((n >> 8u16) as u8, n as u8) == n,
{
    assert(((((n >> 8u16) as u8) as u16) << 8u16) | ((n as u8) as u16) == n) by (bit_vector);
}

/// Decoding an encoded request gives back its path and body.
pub proof fn lemma_request_round_trip(path: Seq<u8>, body: Seq<u8>)
    requires
        path.len() <= u32::MAX,
    ensures
        parse_request(request_bytes(path, body)) == Some((path, body)),
{
    let b = request_bytes(path, body);
    let n = path.len() as u32;
    lemma_be32(n);
    assert(b[0] == (n >> 24u32) as u8 && b[1] == (n >> 16u32) as u8 && b[2] == (n >> 8u32) as u8 && b[3] == n as u8);
    assert(b.subrange(4, 4 + path.len() as int) =~= path);
    assert(b.subrange(4 + path.len() as int, b.len() as int) =~= body);
}

/// Decoding an encoded response gives back its status and body.
pub proof fn lemma_response_round_trip(status: u16, body: Seq<u8>)
    ensures
        parse_response(response_bytes(status, body)) == Some((status, body)),
{
    let b = response_bytes(status, body);
    lemma_be16(status);
    assert(b[0] == (status >> 8u16) as u8 && b[1] == status as u8);
    assert(b.subrange(2, b.len() as int) =~= body);
}

/// Appends `src` to `dst`.
fn extend(dst: &mut Vec<u8>, src: &Vec<u8>)
    ensures
        final(dst)@ == old(dst)@ + src@,
{
    let mut i: usize = 0;
    while i < src.len()
        invariant
            i <= src@.len(),
            dst@ == old(dst)@ + src@.subrange(0, i as int),
        decreases src@.len() - i,
    {
        dst.push(src[i]);
        i += 1;
        assert(dst@ =~= old(dst)@ + src@.subrange(0, i as int));
    }
    assert(src@.subrange(0, src@.len() as int) =~= src@);
}

/// The bytes from `start` to `end`.
fn slice(b: &Vec<u8>, start: usize, end: usize) -> (r: Vec<u8>)
    requires
        start <= end <= b@.len(),
    ensures
        r@ == b@.subrange(start as int, end as int),
{
    let mut r: Vec<u8> = Vec::new();
    let mut i: usize = start;
    while i < end
        invariant
            start <= i <= end,
            end <= b@.len(),
            r@ == b@.subrange(start as int, i as int),
        decreases end - i,
    {
        r.push(b[i]);
        i += 1;
        assert(r@ =~= b@.subrange(start as int, i as int));
    }
    r
}

/// A request as routed on the receiving side.
pub struct WireRequest {
    pub path: Vec<u8>,
    pub body: Vec<u8>,
}

pub fn encode_request(path: &Vec<u8>, body: &Vec<u8>) -> (r: Vec<u8>)
    requires
        path@.len() <= u32::MAX,
    ensures
        r@ == request_bytes(path@, body@),
{
    let n = path.len() as u32;
    let mut r: Vec<u8> = Vec::new();
    r.push((n >> 24u32) as u8);
    r.push((n >> 16u32) as u8);
    r.push((n >> 8u32) as u8);
    r.push(n as u8);
    assert(r@ =~= be32(n));
    extend(&mut r, path);
    extend(&mut r, body);
    r
}

/// The request that `bytes` encodes; `None` when they are too short for the
/// path length they announce.
pub fn decode_request(bytes: &Vec<u8>) -> (r: Option<WireRequest>)
    ensures
        match r {
            Some(q) => parse_request(bytes@) == Some((q.path@, q.body@)),
            None => parse_request(bytes@) is None,
        },
{
    if bytes.len() < 4 {
        return None;
    }
    let n: u32 = ((bytes[0] as u32) << 24u32) | ((bytes[1] as u32) << 16u32) | ((bytes[2] as u32) << 8u32) | (bytes[3] as u32);
    if (n as usize) > bytes.len() - 4 {
        return None;
    }
    let end = 4 + n as usize;
    let path = slice(bytes, 4, end);
    let body = slice(bytes, end, bytes.len());
    Some(WireRequest { path, body })
}

pub fn encode_response(status: u16, body: &Vec<u8>) -> (r: Vec<u8>)
    ensures
        r@ == response_bytes(status, body@),
{
    let mut r: Vec<u8> = Vec::new();
    r.push((status >> 8u16) as u8);
    r.push(status as u8);
    assert(r@ =~= be16(status));
    extend(&mut r, body);
    r
}

/// The status and body that `bytes` encode; `None` when they are shorter
/// than a status.
pub fn decode_response(bytes: &Vec<u8>) -> (r: Option<(u16, Vec<u8>)>)
    ensures
        match r {
            Some((s, b)) => parse_response(bytes@) == Some((s, b@)),
            None => parse_response(bytes@) is None,
        },
{
    if bytes.len() < 2 {
        return None;
    }
    let s: u16 = ((bytes[0] as u16) << 8u16) | (bytes[1] as u16);
    Some((s, slice(bytes, 2, bytes.len())))
}

} // verus!
