use rtracker::codec::{
    decode_client_announce, encode_connect_response, encode_error, encode_server_announce,
    parse_header, DecodeError,
};

fn announce_body(
    info_hash: &[u8; 20],
    peer_id: &[u8; 20],
    downloaded: u64,
    remaining: u64,
    uploaded: u64,
    event: u32,
    ip: u32,
    key: u32,
    num_want: i32,
    port: u16,
) -> Vec<u8> {
    let mut b: Vec<u8> = Vec::new();
    b.extend_from_slice(info_hash);
    b.extend_from_slice(peer_id);
    b.extend_from_slice(&downloaded.to_be_bytes());
    b.extend_from_slice(&remaining.to_be_bytes());
    b.extend_from_slice(&uploaded.to_be_bytes());
    b.extend_from_slice(&event.to_be_bytes());
    b.extend_from_slice(&ip.to_be_bytes());
    b.extend_from_slice(&key.to_be_bytes());
    b.extend_from_slice(&(num_want as u32).to_be_bytes());
    b.extend_from_slice(&port.to_be_bytes());
    b
}

#[test]
fn parse_header_reads_big_endian_fields() {
    let mut p: Vec<u8> = Vec::new();
    p.extend_from_slice(&0x0102030405060708u64.to_be_bytes());
    p.extend_from_slice(&1u32.to_be_bytes());
    p.extend_from_slice(&0xdeadbeefu32.to_be_bytes());
    let h = parse_header(&p).unwrap();
    assert_eq!(h.connection_token, 0x0102030405060708);
    assert_eq!(h.action, 1);
    assert_eq!(h.transaction_id, 0xdeadbeef);
}

#[test]
fn parse_header_ignores_trailing_bytes() {
    let mut p: Vec<u8> = Vec::new();
    p.extend_from_slice(&7u64.to_be_bytes());
    p.extend_from_slice(&0u32.to_be_bytes());
    p.extend_from_slice(&9u32.to_be_bytes());
    p.extend_from_slice(&[0xaa; 50]);
    let h = parse_header(&p).unwrap();
    assert_eq!(h.connection_token, 7);
    assert_eq!(h.action, 0);
    assert_eq!(h.transaction_id, 9);
}

#[test]
fn parse_header_fails_under_sixteen_bytes() {
    let p: Vec<u8> = vec![0; 15];
    assert_eq!(parse_header(&p), Err(DecodeError::Truncated));
    let empty: Vec<u8> = Vec::new();
    assert_eq!(parse_header(&empty), Err(DecodeError::Truncated));
}

#[test]
fn connect_response_layout() {
    let r = encode_connect_response(0x1122334455667788, 0x0a0b0c0d);
    assert_eq!(r.len(), 16);
    assert_eq!(&r[0..4], &0u32.to_be_bytes());
    assert_eq!(&r[4..8], &0x0a0b0c0du32.to_be_bytes());
    assert_eq!(&r[8..16], &0x1122334455667788u64.to_be_bytes());
}

#[test]
fn decode_announce_reads_fixed_offsets() {
    let ih = [3u8; 20];
    let pid = [5u8; 20];
    let body = announce_body(&ih, &pid, 11, 22, 33, 2, 0x7f000001, 44, -1, 6881);
    assert_eq!(body.len(), 82);
    let a = decode_client_announce(&body).unwrap();
    assert_eq!(a.info_hash, ih.to_vec());
    assert_eq!(a.peer_id, pid.to_vec());
    assert_eq!(a.downloaded, 11);
    assert_eq!(a.remaining, 22);
    assert_eq!(a.uploaded, 33);
    assert_eq!(a.event, 2);
    assert_eq!(a.ip, 0x7f000001);
    assert_eq!(a.key, 44);
    assert_eq!(a.num_want, -1);
    assert_eq!(a.port, 6881);
}

#[test]
fn decode_announce_accepts_extension_bytes() {
    let body = {
        let mut b = announce_body(&[1; 20], &[2; 20], 0, 0, 0, 0, 0, 0, 50, 1);
        b.extend_from_slice(&[0xff; 9]);
        b
    };
    let a = decode_client_announce(&body).unwrap();
    assert_eq!(a.num_want, 50);
    assert_eq!(a.port, 1);
}

#[test]
fn decode_announce_fails_when_truncated() {
    let mut body = announce_body(&[1; 20], &[2; 20], 0, 0, 0, 0, 0, 0, 0, 1);
    body.truncate(81);
    assert!(matches!(decode_client_announce(&body), Err(DecodeError::Truncated)));
}

#[test]
fn announce_response_truncates_to_num_want() {
    let swarm = vec![(10u32, 1u16), (20, 2), (30, 3)];
    let r = encode_server_announce(7, swarm, 2, 1, 2);
    assert_eq!(r.len(), 20 + 6 * 2);
    assert_eq!(&r[0..4], &1u32.to_be_bytes());
    assert_eq!(&r[4..8], &7u32.to_be_bytes());
    assert_eq!(&r[8..12], &1800u32.to_be_bytes());
    assert_eq!(&r[12..16], &1u32.to_be_bytes());
    assert_eq!(&r[16..20], &2u32.to_be_bytes());
    assert_eq!(&r[20..24], &10u32.to_be_bytes());
    assert_eq!(&r[24..26], &1u16.to_be_bytes());
    assert_eq!(&r[26..30], &20u32.to_be_bytes());
    assert_eq!(&r[30..32], &2u16.to_be_bytes());
}

#[test]
fn announce_response_negative_num_want_keeps_full_swarm() {
    let swarm = vec![(10u32, 1u16), (20, 2), (30, 3)];
    let r = encode_server_announce(7, swarm, -1, 0, 3);
    assert_eq!(r.len(), 20 + 6 * 3);
    assert_eq!(&r[32..36], &30u32.to_be_bytes());
    assert_eq!(&r[36..38], &3u16.to_be_bytes());
}

#[test]
fn announce_response_num_want_zero_sends_no_peers() {
    let swarm = vec![(10u32, 1u16), (20, 2)];
    let r = encode_server_announce(7, swarm, 0, 2, 0);
    assert_eq!(r.len(), 20);
}

#[test]
fn announce_response_large_num_want_keeps_full_swarm() {
    let swarm = vec![(10u32, 1u16), (20, 2)];
    let r = encode_server_announce(7, swarm, 500, 1, 1);
    assert_eq!(r.len(), 20 + 6 * 2);
}

#[test]
fn error_response_layout() {
    let msg: Vec<u8> = b"boom".to_vec();
    let r = encode_error(0x01020304, &msg);
    assert_eq!(&r[0..4], &3u32.to_be_bytes());
    assert_eq!(&r[4..8], &0x01020304u32.to_be_bytes());
    assert_eq!(&r[8..], b"boom");
}
