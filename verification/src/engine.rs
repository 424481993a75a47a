//! The announce protocol state machine. One tracker holds the connection
//! authority and the peer store; each datagram is handled as one step:
//! a connect issues a token, an announce with a valid token mutates the
//! store and answers with a swarm sample and counts, and everything else
//! is answered with an error response, never a crash.
use vstd::prelude::*;

use crate::auth::{
    ConnectionAuthority, TokenEntry, distinct_tokens, issue_spec, token_valid,
};
use crate::codec::{
    ACTION_ANNOUNCE, ACTION_CONNECT, ANNOUNCE_BODY_LEN, AnnounceFields, AnnounceRequest,
    EVENT_STOPPED, HEADER_LEN, announce_response_bytes, connect_response_bytes,
    copy_range, decode_client_announce, encode_connect_response, encode_error,
    encode_server_announce, error_response_bytes, parse_header, spec_announce_fields,
    spec_header, truncated_swarm,
};
use crate::store::{
    PeerKey, PeerRecord, PeerStore, PeerView, clipped, distinct_keys, leecher_count,
    prune_spec, remove_spec, seeder_count, swarm_peers, upsert_spec,
};

verus! {

broadcast use vstd::seq_lib::group_filter_ensures;

/// The error text sent when an announce carries no valid token.
pub open spec fn msg_invalid_token() -> Seq<u8> {
    seq![
        0x63u8, 0x6f, 0x6e, 0x6e, 0x65, 0x63, 0x74, 0x69, 0x6f, 0x6e, 0x20, 0x69, 0x64,
        0x20, 0x69, 0x6e, 0x76, 0x61, 0x6c, 0x69, 0x64,
    ]
}

/// The error text sent for an action this tracker does not implement.
pub open spec fn msg_unsupported() -> Seq<u8> {
    seq![
        0x75u8, 0x6e, 0x73, 0x75, 0x70, 0x70, 0x6f, 0x72, 0x74, 0x65, 0x64, 0x20, 0x61,
        0x63, 0x74, 0x69, 0x6f, 0x6e,
    ]
}

/// The error text sent for a datagram shorter than its fixed-size region.
pub open spec fn msg_truncated() -> Seq<u8> {
    seq![
        0x74u8, 0x72, 0x75, 0x6e, 0x63, 0x61, 0x74, 0x65, 0x64, 0x20, 0x70, 0x61, 0x63,
        0x6b, 0x65, 0x74,
    ]
}

/// The bytes "connection id invalid".
fn invalid_token_message() -> (r: Vec<u8>)
    ensures
        r@ == msg_invalid_token(),
{
    let r: Vec<u8> = vec![
        0x63u8, 0x6f, 0x6e, 0x6e, 0x65, 0x63, 0x74, 0x69, 0x6f, 0x6e, 0x20, 0x69, 0x64,
        0x20, 0x69, 0x6e, 0x76, 0x61, 0x6c, 0x69, 0x64,
    ];
    proof {
        assert(r@ =~= msg_invalid_token());
    }
    r
}

/// The bytes "unsupported action".
fn unsupported_message() -> (r: Vec<u8>)
    ensures
        r@ == msg_unsupported(),
{
    let r: Vec<u8> = vec![
        0x75u8, 0x6e, 0x73, 0x75, 0x70, 0x70, 0x6f, 0x72, 0x74, 0x65, 0x64, 0x20, 0x61,
        0x63, 0x74, 0x69, 0x6f, 0x6e,
    ];
    proof {
        assert(r@ =~= msg_unsupported());
    }
    r
}

/// The bytes "truncated packet".
fn truncated_message() -> (r: Vec<u8>)
    ensures
        r@ == msg_truncated(),
{
    let r: Vec<u8> = vec![
        0x74u8, 0x72, 0x75, 0x6e, 0x63, 0x61, 0x74, 0x65, 0x64, 0x20, 0x70, 0x61, 0x63,
        0x6b, 0x65, 0x74,
    ];
    proof {
        assert(r@ =~= msg_truncated());
    }
    r
}

/// A count clipped into a 32-bit response field.
pub open spec fn clamp_u32(n: nat) -> u32 {
    if n > u32::MAX {
        u32::MAX
    } else {
        n as u32
    }
}

/// Clips a count into a 32-bit response field.
fn clamp_count(n: u64) -> (r: u32)
    ensures
        r == clamp_u32(n as nat),
{
    if n > u32::MAX as u64 {
        u32::MAX
    } else {
        n as u32
    }
}

/// The key under which an announce from `src` is recorded.
pub open spec fn announce_key(f: AnnounceFields, src_ip: u32, src_port: u16) -> PeerKey {
    PeerKey { info_hash: f.info_hash, ip: src_ip, port: src_port, peer_id: f.peer_id }
}

/// The record that an announce from `src` at `now` writes.
pub open spec fn announce_record(
    f: AnnounceFields,
    src_ip: u32,
    src_port: u16,
    now: u64,
) -> PeerView {
    PeerView {
        info_hash: f.info_hash,
        ip: src_ip,
        port: src_port,
        peer_id: f.peer_id,
        remaining: f.remaining,
        last_active: now,
    }
}

/// The store after one announce: a stopped event removes the requester's
/// record, every other event upserts it with the supplied remaining and
/// the current time.
pub open spec fn store_after_announce(
    s: Seq<PeerView>,
    f: AnnounceFields,
    src_ip: u32,
    src_port: u16,
    now: u64,
) -> Seq<PeerView> {
    if f.event == EVENT_STOPPED {
        remove_spec(s, announce_key(f, src_ip, src_port))
    } else {
        upsert_spec(s, announce_record(f, src_ip, src_port, now))
    }
}

/// The response to one announce, computed against the store as it stands
/// after the announce: a stopped peer gets an empty swarm, every other a
/// swarm excluding itself, truncated to `num_want`; counts come from the
/// updated store.
pub open spec fn announce_response(
    s1: Seq<PeerView>,
    f: AnnounceFields,
    src_ip: u32,
    src_port: u16,
    transaction_id: u32,
) -> Seq<u8> {
    let peers = if f.event == EVENT_STOPPED {
        Seq::<(u32, u16)>::empty()
    } else {
        truncated_swarm(
            swarm_peers(s1, f.info_hash, announce_key(f, src_ip, src_port)),
            f.num_want,
        )
    };
    announce_response_bytes(
        transaction_id,
        clamp_u32(leecher_count(s1, f.info_hash)),
        clamp_u32(seeder_count(s1, f.info_hash)),
        peers,
    )
}

/// One protocol step: how the tracker state and the response relate to the
/// state before the datagram, for every datagram.
pub open spec fn tracker_step(
    pre_auth: Seq<TokenEntry>,
    pre_store: Seq<PeerView>,
    post_auth: Seq<TokenEntry>,
    post_store: Seq<PeerView>,
    packet: Seq<u8>,
    src_ip: u32,
    src_port: u16,
    now: u64,
    resp: Seq<u8>,
) -> bool {
    if packet.len() < HEADER_LEN {
        &&& post_auth == pre_auth
        &&& post_store == pre_store
        &&& resp == error_response_bytes(0, msg_truncated())
    } else {
        let h = spec_header(packet);
        if h.action == ACTION_CONNECT {
            &&& post_store == pre_store
            &&& exists|tok: u64|
                post_auth == issue_spec(
                    pre_auth,
                    TokenEntry { token: tok, ip: src_ip, port: src_port, issued: now },
                ) && resp == connect_response_bytes(tok, h.transaction_id)
        } else if h.action == ACTION_ANNOUNCE {
            if !token_valid(pre_auth, h.connection_token, src_ip, src_port, now) {
                &&& post_auth == pre_auth
                &&& post_store == pre_store
                &&& resp == error_response_bytes(h.transaction_id, msg_invalid_token())
            } else if packet.len() < HEADER_LEN + ANNOUNCE_BODY_LEN {
                &&& post_auth == pre_auth
                &&& post_store == pre_store
                &&& resp == error_response_bytes(h.transaction_id, msg_truncated())
            } else {
                let f = spec_announce_fields(packet.skip(HEADER_LEN as int));
                &&& post_auth == pre_auth
                &&& post_store == store_after_announce(pre_store, f, src_ip, src_port, now)
                &&& resp == announce_response(post_store, f, src_ip, src_port, h.transaction_id)
            }
        } else {
            &&& post_auth == pre_auth
            &&& post_store == pre_store
            &&& resp == error_response_bytes(h.transaction_id, msg_unsupported())
        }
    }
}

/// Relies on chrono::Utc::now and DateTime::timestamp: the current wall
/// clock as whole seconds since the Unix epoch. Nothing is promised of
/// the value; callers state what holds for every value.
#[verifier::external_body]
fn now_seconds() -> u64 {
    chrono::Utc::now().timestamp() as u64
}

/// The tracker: the token authority and the swarm store, stepped one
/// datagram at a time.
pub struct Tracker {
    pub auth: ConnectionAuthority,
    pub store: PeerStore,
}

impl Tracker {
    /// The tracker's invariant: both tables are well formed.
    pub open spec fn wf(&self) -> bool {
        distinct_tokens(self.auth@) && distinct_keys(self.store@)
    }

    /// A tracker with no tokens and no peers.
    pub fn new() -> (t: Self)
        ensures
            t.wf(),
            t.auth@ == Seq::<TokenEntry>::empty(),
            t.store@ == Seq::<PeerView>::empty(),
    {
        Tracker { auth: ConnectionAuthority::new(), store: PeerStore::new() }
    }

    /// Handles one announce whose token was already validated.
    fn handle_announce(
        &mut self,
        req: AnnounceRequest,
        transaction_id: u32,
        src_ip: u32,
        src_port: u16,
        now: u64,
    ) -> (resp: Vec<u8>)
        requires
            old(self).wf(),
        ensures
            final(self).wf(),
            final(self).auth@ == old(self).auth@,
            final(self).store@ == store_after_announce(
                old(self).store@,
                req@,
                src_ip,
                src_port,
                now,
            ),
            resp@ == announce_response(
                final(self).store@,
                req@,
                src_ip,
                src_port,
                transaction_id,
            ),
    {
        let ghost f = req@;
        if req.event == EVENT_STOPPED {
            self.store.remove(&req.info_hash, src_ip, src_port, &req.peer_id);
            let (leechers, seeders) = self.store.counts(&req.info_hash);
            let resp = encode_server_announce(
                transaction_id,
                Vec::new(),
                req.num_want,
                clamp_count(leechers),
                clamp_count(seeders),
            );
            proof {
                assert(truncated_swarm(Seq::<(u32, u16)>::empty(), f.num_want) =~= Seq::<
                    (u32, u16),
                >::empty());
            }
            resp
        } else {
            let info_hash = copy_range(&req.info_hash, 0, req.info_hash.len());
            let peer_id = copy_range(&req.peer_id, 0, req.peer_id.len());
            proof {
                assert(info_hash@ =~= req.info_hash@);
                assert(peer_id@ =~= req.peer_id@);
            }
            let rec = PeerRecord {
                info_hash: req.info_hash,
                ip: src_ip,
                port: src_port,
                peer_id: req.peer_id,
                remaining: req.remaining,
                last_active: now,
            };
            proof {
                assert(rec@ == announce_record(f, src_ip, src_port, now));
            }
            self.store.upsert(rec);
            let limit = self.store.peer_count();
            let swarm = self.store.select_swarm(&info_hash, src_ip, src_port, &peer_id, limit);
            let ghost ex = announce_key(f, src_ip, src_port);
            proof {
                let sw = swarm_peers(self.store@, f.info_hash, ex);
                assert(sw.len() <= self.store@.len());
                assert(clipped(sw, limit as int) == sw);
            }
            let (leechers, seeders) = self.store.counts(&info_hash);
            encode_server_announce(
                transaction_id,
                swarm,
                req.num_want,
                clamp_count(leechers),
                clamp_count(seeders),
            )
        }
    }

    /// Handles one datagram at time `now`: the step relation `tracker_step`
    /// ties the response and the new state to the old state.
    pub fn handle_packet(
        &mut self,
        packet: &Vec<u8>,
        src_ip: u32,
        src_port: u16,
        now: u64,
    ) -> (resp: Vec<u8>)
        requires
            old(self).wf(),
        ensures
            final(self).wf(),
            tracker_step(
                old(self).auth@,
                old(self).store@,
                final(self).auth@,
                final(self).store@,
                packet@,
                src_ip,
                src_port,
                now,
                resp@,
            ),
    {
        let header = match parse_header(packet) {
            Ok(h) => h,
            Err(_) => {
                let msg = truncated_message();
                return encode_error(0, &msg);
            },
        };
        if header.action == ACTION_CONNECT {
            let token = self.auth.issue(src_ip, src_port, now);
            encode_connect_response(token, header.transaction_id)
        } else if header.action == ACTION_ANNOUNCE {
            if !self.auth.validate(header.connection_token, src_ip, src_port, now) {
                let msg = invalid_token_message();
                encode_error(header.transaction_id, &msg)
            } else if packet.len() < HEADER_LEN + ANNOUNCE_BODY_LEN {
                let msg = truncated_message();
                encode_error(header.transaction_id, &msg)
            } else {
                let body = copy_range(packet, HEADER_LEN, packet.len() - HEADER_LEN);
                proof {
                    assert(body@ =~= packet@.skip(HEADER_LEN as int));
                }
                match decode_client_announce(&body) {
                    Ok(req) => self.handle_announce(
                        req,
                        header.transaction_id,
                        src_ip,
                        src_port,
                        now,
                    ),
                    Err(_) => {
                        proof {
                            assert(false);
                        }
                        let msg = truncated_message();
                        encode_error(header.transaction_id, &msg)
                    },
                }
            }
        } else {
            let msg = unsupported_message();
            encode_error(header.transaction_id, &msg)
        }
    }

    /// Handles one datagram at the current wall-clock time. The step
    /// relation holds for the time the clock returned.
    pub fn handle_datagram(&mut self, packet: &Vec<u8>, src_ip: u32, src_port: u16) -> (resp:
        Vec<u8>)
        requires
            old(self).wf(),
        ensures
            final(self).wf(),
            exists|now: u64|
                tracker_step(
                    old(self).auth@,
                    old(self).store@,
                    final(self).auth@,
                    final(self).store@,
                    packet@,
                    src_ip,
                    src_port,
                    now,
                    resp@,
                ),
    {
        let now = now_seconds();
        self.handle_packet(packet, src_ip, src_port, now)
    }

    /// One prune sweep at the current wall-clock time: every record idle
    /// past the threshold at that time is evicted, every other survives.
    pub fn prune_idle(&mut self, idle_threshold: u64)
        requires
            old(self).wf(),
        ensures
            final(self).wf(),
            final(self).auth@ == old(self).auth@,
            exists|now: u64|
                final(self).store@ == prune_spec(old(self).store@, now, idle_threshold),
    {
        let now = now_seconds();
        self.store.prune(now, idle_threshold);
    }
}

} // verus!
