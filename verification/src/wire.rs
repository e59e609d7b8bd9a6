//! Frame decoding: the connection identity key and the fallible extraction of
//! a TCP segment (identity, sequence number, FIN/ACK flags, payload bytes)
//! from a raw Ethernet/IPv4/TCP frame.
//!
//! Decoding is total and recoverable: a malformed or truncated frame yields a
//! `DecodeError` so that only the offending frame is dropped, never the whole
//! capture loop. The mathematical meaning of decoding is `decode_spec`, a
//! direct statement over the frame's byte sequence, and `decode_frame` is
//! proved to agree with it.

use vstd::prelude::*;

verus! {

/// Ordered 4-tuple identifying one direction of a TCP connection:
/// (source address, source port, destination address, destination port).
/// The address/port-swapped form (`mirror`) addresses the same connection.
#[derive(PartialEq, Eq, Structural, Clone, Copy, Debug)]
pub struct ConnectionKey {
    pub src_addr: u32,
    pub src_port: u16,
    pub dst_addr: u32,
    pub dst_port: u16,
}

impl ConnectionKey {
    /// The same 4-tuple with source and destination swapped.
    pub open spec fn mirror_spec(self) -> ConnectionKey {
        ConnectionKey {
            src_addr: self.dst_addr,
            src_port: self.dst_port,
            dst_addr: self.src_addr,
            dst_port: self.src_port,
        }
    }

    pub fn mirror(&self) -> (r: ConnectionKey)
        ensures
            r == self.mirror_spec(),
    {
        ConnectionKey {
            src_addr: self.dst_addr,
            src_port: self.dst_port,
            dst_addr: self.src_addr,
            dst_port: self.src_port,
        }
    }
}

/// Two keys address the same physical connection when they are equal or one
/// is the mirror of the other.
pub open spec fn same_connection(a: ConnectionKey, b: ConnectionKey) -> bool {
    a == b || a == b.mirror_spec()
}

/// One captured transport-layer unit: its connection identity, sequence
/// number, control flags, and payload bytes. Immutable once captured.
#[derive(Clone, Debug)]
pub struct Segment {
    pub key: ConnectionKey,
    pub seq: u32,
    pub fin: bool,
    pub ack: bool,
    pub payload: Vec<u8>,
}

/// The mathematical value of a `Segment`: the same fields with the payload
/// as a byte sequence.
#[verifier::ext_equal]
pub struct SegmentModel {
    pub key: ConnectionKey,
    pub seq: u32,
    pub fin: bool,
    pub ack: bool,
    pub payload: Seq<u8>,
}

impl Segment {
    pub open spec fn model(self) -> SegmentModel {
        SegmentModel {
            key: self.key,
            seq: self.seq,
            fin: self.fin,
            ack: self.ack,
            payload: self.payload@,
        }
    }
}

/// Why a captured frame could not be decoded into a TCP segment. Such a
/// frame is dropped; the capture loop goes on.
#[derive(PartialEq, Eq, Structural, Clone, Copy, Debug)]
pub enum DecodeError {
    /// The frame ends before a header it announces is complete.
    TruncatedFrame,
    /// The frame does not carry an IPv4 packet.
    NotIpv4,
    /// The IPv4 header length or total length field is inconsistent.
    BadIpv4Header,
    /// The IPv4 packet does not carry TCP.
    NotTcp,
    /// The TCP data offset field is inconsistent.
    BadTcpHeader,
}

/// Big-endian 16-bit value at byte offset `i`.
pub open spec fn be16_at(b: Seq<u8>, i: int) -> u16 {
    ((b[i] as int) * 0x100 + (b[i + 1] as int)) as u16
}

/// Big-endian 32-bit value at byte offset `i`.
pub open spec fn be32_at(b: Seq<u8>, i: int) -> u32 {
    ((b[i] as int) * 0x1000000 + (b[i + 1] as int) * 0x10000 + (b[i + 2] as int) * 0x100
        + (b[i + 3] as int)) as u32
}

/// What decoding a raw frame means: an Ethernet header (14 bytes, ethertype
/// 0x0800), an IPv4 header (version 4, header and total length fields
/// consistent with the frame, protocol 6), and a TCP header (data offset
/// consistent with the TCP section). The payload is everything between the
/// TCP header and the end announced by the IPv4 total length; link-layer
/// padding past that end is discarded.
pub open spec fn decode_spec(b: Seq<u8>) -> Result<SegmentModel, DecodeError> {
    if b.len() < 14 {
        Err(DecodeError::TruncatedFrame)
    } else if be16_at(b, 12) != 0x0800 {
        Err(DecodeError::NotIpv4)
    } else if b.len() < 34 {
        Err(DecodeError::TruncatedFrame)
    } else if b[14] / 16 != 4 {
        Err(DecodeError::NotIpv4)
    } else {
        let ihl = (b[14] % 16) * 4;
        let total_len = be16_at(b, 16) as int;
        if ihl < 20 || total_len < ihl {
            Err(DecodeError::BadIpv4Header)
        } else if b.len() < 14 + total_len {
            Err(DecodeError::TruncatedFrame)
        } else if b[23] != 6 {
            Err(DecodeError::NotTcp)
        } else {
            let tcp = 14 + ihl;
            let tcp_len = total_len - ihl;
            if tcp_len < 20 {
                Err(DecodeError::BadTcpHeader)
            } else {
                let data_off = (b[tcp + 12] / 16) * 4;
                if data_off < 20 || data_off > tcp_len {
                    Err(DecodeError::BadTcpHeader)
                } else {
                    Ok(SegmentModel {
                        key: ConnectionKey {
                            src_addr: be32_at(b, 26),
                            src_port: be16_at(b, tcp),
                            dst_addr: be32_at(b, 30),
                            dst_port: be16_at(b, tcp + 2),
                        },
                        seq: be32_at(b, tcp + 4),
                        fin: b[tcp + 13] % 2 == 1,
                        ack: (b[tcp + 13] / 16) % 2 == 1,
                        payload: b.subrange(tcp + data_off, 14 + total_len),
                    })
                }
            }
        }
    }
}

fn read_be16(b: &[u8], i: usize) -> (r: u16)
    requires
        i + 2 <= b@.len(),
    ensures
        r == be16_at(b@, i as int),
{
    (b[i] as u16) * 0x100 + (b[i + 1] as u16)
}

fn read_be32(b: &[u8], i: usize) -> (r: u32)
    requires
        i + 4 <= b@.len(),
    ensures
        r == be32_at(b@, i as int),
{
    (b[i] as u32) * 0x1000000 + (b[i + 1] as u32) * 0x10000 + (b[i + 2] as u32) * 0x100 + (b[i
        + 3] as u32)
}

/// Decode one raw frame into a TCP segment, or say exactly why it cannot be.
pub fn decode_frame(buffer: &[u8]) -> (r: Result<Segment, DecodeError>)
    ensures
        r matches Ok(s) ==> decode_spec(buffer@) matches Ok(m) && s.key == m.key && s.seq == m.seq
            && s.fin == m.fin && s.ack == m.ack && s.payload@ == m.payload,
        r matches Err(e) ==> decode_spec(buffer@) == Err::<SegmentModel, DecodeError>(e),
{
    let n = buffer.len();
    if n < 14 {
        return Err(DecodeError::TruncatedFrame);
    }
    if read_be16(buffer, 12) != 0x0800 {
        return Err(DecodeError::NotIpv4);
    }
    if n < 34 {
        return Err(DecodeError::TruncatedFrame);
    }
    let vihl = buffer[14];
    if vihl / 16 != 4 {
        return Err(DecodeError::NotIpv4);
    }
    let ihl: usize = ((vihl % 16) as usize) * 4;
    let total_len: usize = read_be16(buffer, 16) as usize;
    if ihl < 20 || total_len < ihl {
        return Err(DecodeError::BadIpv4Header);
    }
    if n - 14 < total_len {
        return Err(DecodeError::TruncatedFrame);
    }
    if buffer[23] != 6 {
        return Err(DecodeError::NotTcp);
    }
    let tcp: usize = 14 + ihl;
    let tcp_len: usize = total_len - ihl;
    if tcp_len < 20 {
        return Err(DecodeError::BadTcpHeader);
    }
    let data_off: usize = ((buffer[tcp + 12] / 16) as usize) * 4;
    if data_off < 20 || data_off > tcp_len {
        return Err(DecodeError::BadTcpHeader);
    }
    let payload_slice = vstd::slice::slice_subrange(buffer, tcp + data_off, 14 + total_len);
    let payload = vstd::slice::slice_to_vec(payload_slice);
    let seg = Segment {
        key: ConnectionKey {
            src_addr: read_be32(buffer, 26),
            src_port: read_be16(buffer, tcp),
            dst_addr: read_be32(buffer, 30),
            dst_port: read_be16(buffer, tcp + 2),
        },
        seq: read_be32(buffer, tcp + 4),
        fin: buffer[tcp + 13] % 2 == 1,
        ack: (buffer[tcp + 13] / 16) % 2 == 1,
        payload,
    };
    Ok(seg)
}

} // verus!
