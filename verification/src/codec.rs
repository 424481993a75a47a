//! Binary packet codec for the UDP tracker wire protocol.
//!
//! Every message starts with a 16-byte header: connection token (8 bytes),
//! action (4 bytes), transaction id (4 bytes). All numeric fields are in
//! network byte order (big-endian).
use vstd::prelude::*;

verus! {

/// Big-endian bytes of a 16-bit value.
pub open spec fn u16_bytes(x: u16) -> Seq<u8> {
    seq![(x >> 8) as u8, x as u8]
}

/// The 16-bit value read big-endian from two bytes.
pub open spec fn u16_of(b0: u8, b1: u8) -> u16 {
    (((b0 as u16) << 8) | (b1 as u16)) as u16
}

/// Big-endian bytes of a 32-bit value.
pub open spec fn u32_bytes(x: u32) -> Seq<u8> {
    seq![(x >> 24) as u8, (x >> 16) as u8, (x >> 8) as u8, x as u8]
}

/// The 32-bit value read big-endian from four bytes.
pub open spec fn u32_of(b0: u8, b1: u8, b2: u8, b3: u8) -> u32 {
    (((b0 as u32) << 24) | ((b1 as u32) << 16) | ((b2 as u32) << 8) | (b3 as u32)) as u32
}

/// Big-endian bytes of a 64-bit value.
pub open spec fn u64_bytes(x: u64) -> Seq<u8> {
    seq![
        (x >> 56) as u8, (x >> 48) as u8, (x >> 40) as u8, (x >> 32) as u8,
        (x >> 24) as u8, (x >> 16) as u8, (x >> 8) as u8, x as u8,
    ]
}

/// The 64-bit value read big-endian from eight bytes.
pub open spec fn u64_of(
    b0: u8, b1: u8, b2: u8, b3: u8, b4: u8, b5: u8, b6: u8, b7: u8,
) -> u64 {
    (((b0 as u64) << 56) | ((b1 as u64) << 48) | ((b2 as u64) << 40) | ((b3 as u64) << 32)
        | ((b4 as u64) << 24) | ((b5 as u64) << 16) | ((b6 as u64) << 8) | (b7 as u64)) as u64
}

/// Reading back the big-endian bytes of a 16-bit value yields the value.
pub proof fn lemma_u16_round_trip(x: u16)
    ensures
        u16_of(u16_bytes(x)[0], u16_bytes(x)[1]) == x,
{
    assert(u16_of((x >> 8) as u8, x as u8) == x) by (bit_vector);
}

/// Reading back the big-endian bytes of a 32-bit value yields the value.
pub proof fn lemma_u32_round_trip(x: u32)
    ensures
        u32_of(u32_bytes(x)[0], u32_bytes(x)[1], u32_bytes(x)[2], u32_bytes(x)[3]) == x,
{
    assert(u32_of((x >> 24) as u8, (x >> 16) as u8, (x >> 8) as u8, x as u8) == x)
        by (bit_vector);
}

/// Reading back the big-endian bytes of a 64-bit value yields the value.
pub proof fn lemma_u64_round_trip(x: u64)
    ensures
        u64_of(
            u64_bytes(x)[0], u64_bytes(x)[1], u64_bytes(x)[2], u64_bytes(x)[3],
            u64_bytes(x)[4], u64_bytes(x)[5], u64_bytes(x)[6], u64_bytes(x)[7],
        ) == x,
{
    assert(u64_of(
        (x >> 56) as u8, (x >> 48) as u8, (x >> 40) as u8, (x >> 32) as u8,
        (x >> 24) as u8, (x >> 16) as u8, (x >> 8) as u8, x as u8,
    ) == x) by (bit_vector);
}

/// Encoding the 16-bit value read from two bytes yields those bytes.
pub proof fn lemma_u16_bytes_of(b0: u8, b1: u8)
    ensures
        u16_bytes(u16_of(b0, b1)) =~= seq![b0, b1],
{
    assert((u16_of(b0, b1) >> 8) as u8 == b0 && u16_of(b0, b1) as u8 == b1) by (bit_vector);
}

/// Encoding the 32-bit value read from four bytes yields those bytes.
pub proof fn lemma_u32_bytes_of(b0: u8, b1: u8, b2: u8, b3: u8)
    ensures
        u32_bytes(u32_of(b0, b1, b2, b3)) =~= seq![b0, b1, b2, b3],
{
    assert((u32_of(b0, b1, b2, b3) >> 24) as u8 == b0 && (u32_of(b0, b1, b2, b3) >> 16) as u8
        == b1 && (u32_of(b0, b1, b2, b3) >> 8) as u8 == b2 && u32_of(b0, b1, b2, b3) as u8 == b3)
        by (bit_vector);
}

/// Encoding the 64-bit value read from eight bytes yields those bytes.
pub proof fn lemma_u64_bytes_of(b0: u8, b1: u8, b2: u8, b3: u8, b4: u8, b5: u8, b6: u8, b7: u8)
    ensures
        u64_bytes(u64_of(b0, b1, b2, b3, b4, b5, b6, b7)) =~= seq![b0, b1, b2, b3, b4, b5, b6, b7],
{
    assert((u64_of(b0, b1, b2, b3, b4, b5, b6, b7) >> 56) as u8 == b0 && (u64_of(
        b0, b1, b2, b3, b4, b5, b6, b7,
    ) >> 48) as u8 == b1 && (u64_of(b0, b1, b2, b3, b4, b5, b6, b7) >> 40) as u8 == b2 && (u64_of(
        b0, b1, b2, b3, b4, b5, b6, b7,
    ) >> 32) as u8 == b3 && (u64_of(b0, b1, b2, b3, b4, b5, b6, b7) >> 24) as u8 == b4 && (u64_of(
        b0, b1, b2, b3, b4, b5, b6, b7,
    ) >> 16) as u8 == b5 && (u64_of(b0, b1, b2, b3, b4, b5, b6, b7) >> 8) as u8 == b6 && u64_of(
        b0, b1, b2, b3, b4, b5, b6, b7,
    ) as u8 == b7) by (bit_vector);
}

/// Appends the big-endian bytes of a 16-bit value.
pub fn push_u16(out: &mut Vec<u8>, x: u16)
    ensures
        final(out)@ == old(out)@ + u16_bytes(x),
{
    out.push((x >> 8) as u8);
    out.push(x as u8);
    assert(out@ =~= old(out)@ + u16_bytes(x));
}

/// Appends the big-endian bytes of a 32-bit value.
pub fn push_u32(out: &mut Vec<u8>, x: u32)
    ensures
        final(out)@ == old(out)@ + u32_bytes(x),
{
    out.push((x >> 24) as u8);
    out.push((x >> 16) as u8);
    out.push((x >> 8) as u8);
    out.push(x as u8);
    assert(out@ =~= old(out)@ + u32_bytes(x));
}

/// Appends the big-endian bytes of a 64-bit value.
pub fn push_u64(out: &mut Vec<u8>, x: u64)
    ensures
        final(out)@ == old(out)@ + u64_bytes(x),
{
    out.push((x >> 56) as u8);
    out.push((x >> 48) as u8);
    out.push((x >> 40) as u8);
    out.push((x >> 32) as u8);
    out.push((x >> 24) as u8);
    out.push((x >> 16) as u8);
    out.push((x >> 8) as u8);
    out.push(x as u8);
    assert(out@ =~= old(out)@ + u64_bytes(x));
}

/// Reads a big-endian 16-bit value at `off`.
pub fn read_u16(b: &Vec<u8>, off: usize) -> (r: u16)
    requires
        off + 2 <= b@.len(),
    ensures
        r == u16_of(b@[off as int], b@[off + 1]),
{
    let _n: usize = b.len();
    ((b[off] as u16) << 8) | (b[off + 1] as u16)
}

/// Reads a big-endian 32-bit value at `off`.
pub fn read_u32(b: &Vec<u8>, off: usize) -> (r: u32)
    requires
        off + 4 <= b@.len(),
    ensures
        r == u32_of(b@[off as int], b@[off + 1], b@[off + 2], b@[off + 3]),
{
    let _n: usize = b.len();
    ((b[off] as u32) << 24) | ((b[off + 1] as u32) << 16) | ((b[off + 2] as u32) << 8)
        | (b[off + 3] as u32)
}

/// Reads a big-endian 64-bit value at `off`.
pub fn read_u64(b: &Vec<u8>, off: usize) -> (r: u64)
    requires
        off + 8 <= b@.len(),
    ensures
        r == u64_of(
            b@[off as int], b@[off + 1], b@[off + 2], b@[off + 3],
            b@[off + 4], b@[off + 5], b@[off + 6], b@[off + 7],
        ),
{
    let _n: usize = b.len();
    ((b[off] as u64) << 56) | ((b[off + 1] as u64) << 48) | ((b[off + 2] as u64) << 40)
        | ((b[off + 3] as u64) << 32) | ((b[off + 4] as u64) << 24)
        | ((b[off + 5] as u64) << 16) | ((b[off + 6] as u64) << 8) | (b[off + 7] as u64)
}

/// Copies `len` bytes of `b` starting at `off` into a fresh vector.
pub fn copy_range(b: &Vec<u8>, off: usize, len: usize) -> (r: Vec<u8>)
    requires
        off + len <= b@.len(),
    ensures
        r@ == b@.subrange(off as int, off + len),
{
    let n: usize = b.len();
    let mut r: Vec<u8> = Vec::new();
    let mut i: usize = 0;
    while i < len
        invariant
            off + len <= n == b@.len(),
            i <= len,
            r@ == b@.subrange(off as int, off + i),
        decreases len - i,
    {
        r.push(b[off + i]);
        assert(r@ =~= b@.subrange(off as int, off + i + 1));
        i = i + 1;
    }
    r
}

/// Action code of a connect message.
pub const ACTION_CONNECT: u32 = 0;

/// Action code of an announce message.
pub const ACTION_ANNOUNCE: u32 = 1;

/// Action code of an error response.
pub const ACTION_ERROR: u32 = 3;

/// Announce event: no event.
pub const EVENT_NONE: u32 = 0;

/// Announce event: the peer finished downloading.
pub const EVENT_COMPLETED: u32 = 1;

/// Announce event: the peer joined the swarm.
pub const EVENT_STARTED: u32 = 2;

/// Announce event: the peer left the swarm.
pub const EVENT_STOPPED: u32 = 3;

/// Length of the request header shared by every message.
pub const HEADER_LEN: usize = 16;

/// Minimum length of an announce request body (bytes after the header).
pub const ANNOUNCE_BODY_LEN: usize = 82;

/// Interval, in seconds, that announce responses ask clients to wait.
pub const ANNOUNCE_INTERVAL: u32 = 1800;

/// A decode failure: the datagram is shorter than the fixed-size region
/// of its message kind.
#[derive(Clone, Copy, Debug, PartialEq, Eq, Structural)]
pub enum DecodeError {
    Truncated,
}

/// The 16-byte header that starts every request.
#[derive(Clone, Copy, Debug, PartialEq, Eq, Structural)]
pub struct PacketHeader {
    pub connection_token: u64,
    pub action: u32,
    pub transaction_id: u32,
}

/// The header encoded at the start of `b`.
pub open spec fn spec_header(b: Seq<u8>) -> PacketHeader {
    PacketHeader {
        connection_token: u64_of(b[0], b[1], b[2], b[3], b[4], b[5], b[6], b[7]),
        action: u32_of(b[8], b[9], b[10], b[11]),
        transaction_id: u32_of(b[12], b[13], b[14], b[15]),
    }
}

/// Parses the 16-byte header; trailing bytes are ignored.
pub fn parse_header(packet: &Vec<u8>) -> (r: Result<PacketHeader, DecodeError>)
    ensures
        packet@.len() >= HEADER_LEN ==> r == Ok::<PacketHeader, DecodeError>(
            spec_header(packet@),
        ),
        packet@.len() < HEADER_LEN ==> r == Err::<PacketHeader, DecodeError>(
            DecodeError::Truncated,
        ),
{
    if packet.len() < HEADER_LEN {
        return Err(DecodeError::Truncated);
    }
    Ok(PacketHeader {
        connection_token: read_u64(packet, 0),
        action: read_u32(packet, 8),
        transaction_id: read_u32(packet, 12),
    })
}

/// The body fields of an announce request, as mathematical values.
pub ghost struct AnnounceFields {
    pub info_hash: Seq<u8>,
    pub peer_id: Seq<u8>,
    pub downloaded: u64,
    pub remaining: u64,
    pub uploaded: u64,
    pub event: u32,
    pub ip: u32,
    pub key: u32,
    pub num_want: i32,
    pub port: u16,
}

/// The body of an announce request: the fixed 82-byte region that follows
/// the header. Bytes past the fixed region are unparsed extensions.
#[derive(Clone, Debug)]
pub struct AnnounceRequest {
    pub info_hash: Vec<u8>,
    pub peer_id: Vec<u8>,
    pub downloaded: u64,
    pub remaining: u64,
    pub uploaded: u64,
    pub event: u32,
    pub ip: u32,
    pub key: u32,
    pub num_want: i32,
    pub port: u16,
}

impl View for AnnounceRequest {
    type V = AnnounceFields;

    open spec fn view(&self) -> AnnounceFields {
        AnnounceFields {
            info_hash: self.info_hash@,
            peer_id: self.peer_id@,
            downloaded: self.downloaded,
            remaining: self.remaining,
            uploaded: self.uploaded,
            event: self.event,
            ip: self.ip,
            key: self.key,
            num_want: self.num_want,
            port: self.port,
        }
    }
}

/// The announce fields encoded at the fixed offsets of body `b`.
pub open spec fn spec_announce_fields(b: Seq<u8>) -> AnnounceFields {
    AnnounceFields {
        info_hash: b.subrange(0, 20),
        peer_id: b.subrange(20, 40),
        downloaded: u64_of(b[40], b[41], b[42], b[43], b[44], b[45], b[46], b[47]),
        remaining: u64_of(b[48], b[49], b[50], b[51], b[52], b[53], b[54], b[55]),
        uploaded: u64_of(b[56], b[57], b[58], b[59], b[60], b[61], b[62], b[63]),
        event: u32_of(b[64], b[65], b[66], b[67]),
        ip: u32_of(b[68], b[69], b[70], b[71]),
        key: u32_of(b[72], b[73], b[74], b[75]),
        num_want: u32_of(b[76], b[77], b[78], b[79]) as i32,
        port: u16_of(b[80], b[81]),
    }
}

/// Decodes an announce request body from fixed byte offsets. Fails if the
/// body is shorter than the 82-byte fixed region; longer bodies are
/// accepted and the extra bytes ignored.
pub fn decode_client_announce(body: &Vec<u8>) -> (r: Result<AnnounceRequest, DecodeError>)
    ensures
        body@.len() >= ANNOUNCE_BODY_LEN ==> r is Ok && r->Ok_0@ == spec_announce_fields(body@),
        body@.len() < ANNOUNCE_BODY_LEN ==> r == Err::<AnnounceRequest, DecodeError>(
            DecodeError::Truncated,
        ),
{
    if body.len() < ANNOUNCE_BODY_LEN {
        return Err(DecodeError::Truncated);
    }
    Ok(AnnounceRequest {
        info_hash: copy_range(body, 0, 20),
        peer_id: copy_range(body, 20, 20),
        downloaded: read_u64(body, 40),
        remaining: read_u64(body, 48),
        uploaded: read_u64(body, 56),
        event: read_u32(body, 64),
        ip: read_u32(body, 68),
        key: read_u32(body, 72),
        num_want: read_u32(body, 76) as i32,
        port: read_u16(body, 80),
    })
}

/// The bytes of an announce request body: every field at its fixed offset,
/// in the same layout that `decode_client_announce` reads.
pub open spec fn announce_request_bytes(f: AnnounceFields) -> Seq<u8> {
    f.info_hash + f.peer_id + u64_bytes(f.downloaded) + u64_bytes(f.remaining)
        + u64_bytes(f.uploaded) + u32_bytes(f.event) + u32_bytes(f.ip) + u32_bytes(f.key)
        + u32_bytes(f.num_want as u32) + u16_bytes(f.port)
}

/// Round trip: decoding an encoded announce request body yields exactly the
/// fields that were encoded.
pub proof fn lemma_announce_round_trip(f: AnnounceFields)
    requires
        f.info_hash.len() == 20,
        f.peer_id.len() == 20,
    ensures
        announce_request_bytes(f).len() == ANNOUNCE_BODY_LEN,
        spec_announce_fields(announce_request_bytes(f)) == f,
{
    let b = announce_request_bytes(f);
    assert(b.len() == ANNOUNCE_BODY_LEN);
    assert(b.subrange(0, 20) =~= f.info_hash);
    assert(b.subrange(20, 40) =~= f.peer_id);
    assert(b.subrange(40, 48) =~= u64_bytes(f.downloaded));
    assert(b.subrange(48, 56) =~= u64_bytes(f.remaining));
    assert(b.subrange(56, 64) =~= u64_bytes(f.uploaded));
    assert(b.subrange(64, 68) =~= u32_bytes(f.event));
    assert(b.subrange(68, 72) =~= u32_bytes(f.ip));
    assert(b.subrange(72, 76) =~= u32_bytes(f.key));
    assert(b.subrange(76, 80) =~= u32_bytes(f.num_want as u32));
    assert(b.subrange(80, 82) =~= u16_bytes(f.port));
    lemma_u64_round_trip(f.downloaded);
    lemma_u64_round_trip(f.remaining);
    lemma_u64_round_trip(f.uploaded);
    lemma_u32_round_trip(f.event);
    lemma_u32_round_trip(f.ip);
    lemma_u32_round_trip(f.key);
    lemma_u32_round_trip(f.num_want as u32);
    lemma_u16_round_trip(f.port);
    let nw = f.num_want;
    assert((nw as u32) as i32 == nw) by (bit_vector);
    assert(spec_announce_fields(b) =~= f);
}

/// Round trip from the wire side: re-encoding the fields decoded from a
/// valid announce request body reproduces the body's fixed region.
pub proof fn lemma_announce_bytes_round_trip(b: Seq<u8>)
    requires
        b.len() >= ANNOUNCE_BODY_LEN,
    ensures
        announce_request_bytes(spec_announce_fields(b)) == b.take(ANNOUNCE_BODY_LEN as int),
{
    let f = spec_announce_fields(b);
    lemma_u64_bytes_of(b[40], b[41], b[42], b[43], b[44], b[45], b[46], b[47]);
    lemma_u64_bytes_of(b[48], b[49], b[50], b[51], b[52], b[53], b[54], b[55]);
    lemma_u64_bytes_of(b[56], b[57], b[58], b[59], b[60], b[61], b[62], b[63]);
    lemma_u32_bytes_of(b[64], b[65], b[66], b[67]);
    lemma_u32_bytes_of(b[68], b[69], b[70], b[71]);
    lemma_u32_bytes_of(b[72], b[73], b[74], b[75]);
    lemma_u32_bytes_of(b[76], b[77], b[78], b[79]);
    lemma_u16_bytes_of(b[80], b[81]);
    let nw = u32_of(b[76], b[77], b[78], b[79]);
    assert((nw as i32) as u32 == nw) by (bit_vector);
    assert(u32_bytes(f.num_want as u32) =~= seq![b[76], b[77], b[78], b[79]]);
    assert(announce_request_bytes(f) =~= b.take(ANNOUNCE_BODY_LEN as int));
}

/// The bytes of an encoded connect response.
pub open spec fn connect_response_bytes(token: u64, transaction_id: u32) -> Seq<u8> {
    u32_bytes(ACTION_CONNECT) + u32_bytes(transaction_id) + u64_bytes(token)
}

/// Encodes a connect response carrying a freshly issued token.
pub fn encode_connect_response(token: u64, transaction_id: u32) -> (r: Vec<u8>)
    ensures
        r@ == connect_response_bytes(token, transaction_id),
{
    let mut out: Vec<u8> = Vec::new();
    push_u32(&mut out, ACTION_CONNECT);
    push_u32(&mut out, transaction_id);
    push_u64(&mut out, token);
    assert(out@ =~= connect_response_bytes(token, transaction_id));
    out
}

/// The bytes of a peer list: six bytes per peer, ip then port.
pub open spec fn peers_bytes(peers: Seq<(u32, u16)>) -> Seq<u8>
    decreases peers.len(),
{
    if peers.len() == 0 {
        Seq::empty()
    } else {
        peers_bytes(peers.drop_last()) + u32_bytes(peers.last().0) + u16_bytes(peers.last().1)
    }
}

/// A peer list encodes to exactly six bytes per peer.
pub proof fn lemma_peers_bytes_len(peers: Seq<(u32, u16)>)
    ensures
        peers_bytes(peers).len() == 6 * peers.len(),
    decreases peers.len(),
{
    if peers.len() > 0 {
        lemma_peers_bytes_len(peers.drop_last());
    }
}

/// The swarm that an announce response carries: truncated to `num_want`
/// entries when `num_want` is non-negative and smaller than the swarm,
/// the full swarm otherwise.
pub open spec fn truncated_swarm(swarm: Seq<(u32, u16)>, num_want: i32) -> Seq<(u32, u16)> {
    if 0 <= num_want && (num_want as int) < swarm.len() {
        swarm.take(num_want as int)
    } else {
        swarm
    }
}

/// The bytes of an encoded announce response.
pub open spec fn announce_response_bytes(
    transaction_id: u32,
    leechers: u32,
    seeders: u32,
    peers: Seq<(u32, u16)>,
) -> Seq<u8> {
    u32_bytes(ACTION_ANNOUNCE) + u32_bytes(transaction_id) + u32_bytes(ANNOUNCE_INTERVAL)
        + u32_bytes(leechers) + u32_bytes(seeders) + peers_bytes(peers)
}

/// Encodes an announce response: the fixed fields, then one (ip, port)
/// entry per selected peer. The swarm is truncated to the first `num_want`
/// entries when `num_want` is non-negative and smaller than the swarm.
pub fn encode_server_announce(
    transaction_id: u32,
    swarm: Vec<(u32, u16)>,
    num_want: i32,
    leechers: u32,
    seeders: u32,
) -> (r: Vec<u8>)
    ensures
        r@ == announce_response_bytes(
            transaction_id,
            leechers,
            seeders,
            truncated_swarm(swarm@, num_want),
        ),
{
    let mut swarm = swarm;
    let ghost sel = truncated_swarm(swarm@, num_want);
    if num_want >= 0 && (num_want as usize) < swarm.len() {
        swarm.truncate(num_want as usize);
    }
    assert(swarm@ =~= sel);

    let mut out: Vec<u8> = Vec::new();
    push_u32(&mut out, ACTION_ANNOUNCE);
    push_u32(&mut out, transaction_id);
    push_u32(&mut out, ANNOUNCE_INTERVAL);
    push_u32(&mut out, leechers);
    push_u32(&mut out, seeders);
    let ghost prefix = out@;

    let mut i: usize = 0;
    while i < swarm.len()
        invariant
            i <= swarm@.len(),
            swarm@ == sel,
            out@ == prefix + peers_bytes(sel.take(i as int)),
        decreases swarm@.len() - i,
    {
        let (ip, port) = swarm[i];
        push_u32(&mut out, ip);
        push_u16(&mut out, port);
        proof {
            assert(sel.take(i + 1).drop_last() =~= sel.take(i as int));
            assert(sel.take(i + 1).last() == sel[i as int]);
            assert(out@ =~= prefix + peers_bytes(sel.take(i + 1)));
        }
        i = i + 1;
    }
    proof {
        assert(sel.take(sel.len() as int) =~= sel);
        assert(out@ =~= announce_response_bytes(transaction_id, leechers, seeders, sel));
    }
    out
}

/// Truncation: a non-negative `num_want` smaller than the swarm cuts the
/// encoded swarm to exactly its first `num_want` entries; a negative
/// `num_want` keeps the full swarm. The response carries six bytes per
/// selected peer after its 20 fixed bytes.
pub proof fn lemma_announce_truncation(
    transaction_id: u32,
    leechers: u32,
    seeders: u32,
    swarm: Seq<(u32, u16)>,
    num_want: i32,
)
    ensures
        0 <= num_want && (num_want as int) < swarm.len() ==> truncated_swarm(swarm, num_want)
            == swarm.take(num_want as int) && truncated_swarm(swarm, num_want).len() == num_want,
        num_want < 0 ==> truncated_swarm(swarm, num_want) == swarm,
        announce_response_bytes(
            transaction_id,
            leechers,
            seeders,
            truncated_swarm(swarm, num_want),
        ).len() == 20 + 6 * truncated_swarm(swarm, num_want).len(),
{
    lemma_peers_bytes_len(truncated_swarm(swarm, num_want));
}

/// The bytes of an encoded error response.
pub open spec fn error_response_bytes(transaction_id: u32, message: Seq<u8>) -> Seq<u8> {
    u32_bytes(ACTION_ERROR) + u32_bytes(transaction_id) + message
}

/// Encodes an error response: the error action, the transaction id, then
/// the message text. The message length is not bounded here; callers keep
/// it small enough for one datagram.
pub fn encode_error(transaction_id: u32, message: &Vec<u8>) -> (r: Vec<u8>)
    ensures
        r@ == error_response_bytes(transaction_id, message@),
{
    let mut out: Vec<u8> = Vec::new();
    push_u32(&mut out, ACTION_ERROR);
    push_u32(&mut out, transaction_id);
    out.extend_from_slice(message.as_slice());
    assert(out@ =~= error_response_bytes(transaction_id, message@));
    out
}

} // verus!
