use blatta_stream::wire::decode_frame;
use blatta_stream::wire::ConnectionKey;
use blatta_stream::wire::DecodeError;

fn be16(v: u16) -> [u8; 2] {
    [(v >> 8) as u8, (v & 0xff) as u8]
}

fn be32(v: u32) -> [u8; 4] {
    [(v >> 24) as u8, (v >> 16) as u8, (v >> 8) as u8, (v & 0xff) as u8]
}

fn make_frame(
    src_addr: u32,
    src_port: u16,
    dst_addr: u32,
    dst_port: u16,
    seq: u32,
    fin: bool,
    ack: bool,
    payload: &[u8],
) -> Vec<u8> {
    let mut frame = vec![0u8; 12];
    frame.extend_from_slice(&[0x08, 0x00]);
    // IPv4 header, 20 bytes
    let total_len = (20 + 20 + payload.len()) as u16;
    let mut ip = vec![0u8; 20];
    ip[0] = 0x45;
    ip[2] = be16(total_len)[0];
    ip[3] = be16(total_len)[1];
    ip[9] = 6;
    ip[12..16].copy_from_slice(&be32(src_addr));
    ip[16..20].copy_from_slice(&be32(dst_addr));
    frame.extend_from_slice(&ip);
    // TCP header, 20 bytes
    let mut tcp = vec![0u8; 20];
    tcp[0..2].copy_from_slice(&be16(src_port));
    tcp[2..4].copy_from_slice(&be16(dst_port));
    tcp[4..8].copy_from_slice(&be32(seq));
    tcp[12] = 0x50;
    tcp[13] = (if fin { 1 } else { 0 }) | (if ack { 0x10 } else { 0 });
    frame.extend_from_slice(&tcp);
    frame.extend_from_slice(payload);
    frame
}

#[test]
fn decode_valid_frame() {
    let frame = make_frame(0x0a000001, 40000, 0x0a000002, 80, 1234, true, true, b"hello");
    let seg = decode_frame(&frame).unwrap();
    assert_eq!(
        seg.key,
        ConnectionKey { src_addr: 0x0a000001, src_port: 40000, dst_addr: 0x0a000002, dst_port: 80 }
    );
    assert_eq!(seg.seq, 1234);
    assert!(seg.fin);
    assert!(seg.ack);
    assert_eq!(seg.payload, b"hello".to_vec());
}

#[test]
fn decode_strips_link_padding() {
    // frame longer than the IPv4 total length: the padding is not payload
    let mut frame = make_frame(1, 2, 3, 4, 7, false, false, b"xy");
    frame.extend_from_slice(&[0u8; 10]);
    let seg = decode_frame(&frame).unwrap();
    assert_eq!(seg.payload, b"xy".to_vec());
    assert!(!seg.fin);
    assert!(!seg.ack);
}

#[test]
fn decode_truncated_frame() {
    assert_eq!(decode_frame(&[]).unwrap_err(), DecodeError::TruncatedFrame);
    assert_eq!(decode_frame(&[0u8; 13]).unwrap_err(), DecodeError::TruncatedFrame);
    // announces more bytes than the frame holds
    let mut frame = make_frame(1, 2, 3, 4, 7, false, false, b"abc");
    frame.truncate(frame.len() - 1);
    assert_eq!(decode_frame(&frame).unwrap_err(), DecodeError::TruncatedFrame);
}

#[test]
fn decode_not_ipv4() {
    let mut frame = make_frame(1, 2, 3, 4, 7, false, false, b"");
    frame[12] = 0x86;
    frame[13] = 0xdd;
    assert_eq!(decode_frame(&frame).unwrap_err(), DecodeError::NotIpv4);
    let mut frame = make_frame(1, 2, 3, 4, 7, false, false, b"");
    frame[14] = 0x65; // version nibble 6
    assert_eq!(decode_frame(&frame).unwrap_err(), DecodeError::NotIpv4);
}

#[test]
fn decode_bad_ipv4_header() {
    let mut frame = make_frame(1, 2, 3, 4, 7, false, false, b"");
    frame[14] = 0x44; // header length field below the 20-byte minimum
    assert_eq!(decode_frame(&frame).unwrap_err(), DecodeError::BadIpv4Header);
}

#[test]
fn decode_not_tcp() {
    let mut frame = make_frame(1, 2, 3, 4, 7, false, false, b"");
    frame[23] = 17; // UDP
    assert_eq!(decode_frame(&frame).unwrap_err(), DecodeError::NotTcp);
}

#[test]
fn decode_bad_tcp_header() {
    let mut frame = make_frame(1, 2, 3, 4, 7, false, false, b"");
    frame[46] = 0x40; // data offset field below the 20-byte minimum
    assert_eq!(decode_frame(&frame).unwrap_err(), DecodeError::BadTcpHeader);
}

#[test]
fn mirror_swaps_endpoints() {
    let k = ConnectionKey { src_addr: 1, src_port: 2, dst_addr: 3, dst_port: 4 };
    let m = k.mirror();
    assert_eq!(m, ConnectionKey { src_addr: 3, src_port: 4, dst_addr: 1, dst_port: 2 });
    assert_eq!(m.mirror(), k);
}
