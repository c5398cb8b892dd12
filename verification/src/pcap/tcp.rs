//! TCP flow extraction from a captured packet.
//!
//! The IPv4 and TCP headers are read from the link-layer payload. Only
//! unfragmented IPv4 carrying TCP is accepted; anything else (IPv6, UDP,
//! fragments, truncated packets) gives `None`.

use crate::tls::bytes::{be16, be32, copy_range, read_be16, read_be32};
use crate::util::text::{dec, dec_chars, push_all, string_of};
use vstd::prelude::*;

verus! {

/// An IPv4 address, as its four octets in network order.
#[derive(Debug, Clone, Copy, PartialEq, Eq, Hash, PartialOrd, Ord, Structural)]
pub struct Ipv4(pub u8, pub u8, pub u8, pub u8);

impl Ipv4 {
    /// The address `a.b.c.d`.
    pub fn new(a: u8, b: u8, c: u8, d: u8) -> (r: Ipv4)
        ensures
            r == Ipv4(a, b, c, d),
    {
        Ipv4(a, b, c, d)
    }

    /// Dotted-quad text, e.g. `10.0.0.1`.
    pub fn to_text(&self) -> (r: String)
        ensures
            r@ == ipv4_text(*self),
    {
        let mut out: Vec<char> = Vec::new();
        push_all(&mut out, &dec_chars(self.0 as u64));
        out.push('.');
        push_all(&mut out, &dec_chars(self.1 as u64));
        out.push('.');
        push_all(&mut out, &dec_chars(self.2 as u64));
        out.push('.');
        push_all(&mut out, &dec_chars(self.3 as u64));
        string_of(&out)
    }

    /// The four octets.
    pub fn octets(&self) -> (r: [u8; 4])
        ensures
            r@ == seq![self.0, self.1, self.2, self.3],
    {
        [self.0, self.1, self.2, self.3]
    }
}

/// Dotted-quad text of an address.
pub open spec fn ipv4_text(a: Ipv4) -> Seq<char> {
    dec(a.0 as nat) + seq!['.'] + dec(a.1 as nat) + seq!['.'] + dec(a.2 as nat) + seq!['.'] + dec(a.3 as nat)
}

/// Directed flow key: source and destination IPv4 address and port.
#[derive(Debug, Clone, Copy, PartialEq, Eq, Hash, Structural)]
pub struct FlowKey {
    /// Source IPv4 address.
    pub src_ip: Ipv4,
    /// Source port.
    pub src_port: u16,
    /// Destination IPv4 address.
    pub dst_ip: Ipv4,
    /// Destination port.
    pub dst_port: u16,
}

/// A TCP segment: its sequence number and payload.
#[derive(Debug, Clone, PartialEq, Eq)]
pub struct TcpSegment {
    /// Sequence number.
    pub seq: u32,
    /// TCP payload bytes.
    pub payload: Vec<u8>,
}

/// One TCP packet of a flow.
#[derive(Debug, Clone)]
pub struct TcpFlowPacket {
    /// Flow key.
    pub key: FlowKey,
    /// Segment.
    pub segment: TcpSegment,
}

/// What a parsed packet holds: flow key, sequence number and payload.
pub struct TcpPacketV {
    pub key: FlowKey,
    pub seq: u32,
    pub payload: Seq<u8>,
}

/// Offset of the IP header for link type `dlt`: Ethernet 14, raw 0,
/// Linux cooked 16, link type 104 four; for other link types a packet
/// whose first nibble is 4 is taken as raw IPv4.
pub open spec fn ip_offset(dlt: u32, p: Seq<u8>) -> Option<int> {
    if dlt == 1 {
        Some(14)
    } else if dlt == 101 {
        Some(0)
    } else if dlt == 113 {
        Some(16)
    } else if dlt == 104 {
        Some(4)
    } else if p.len() > 0 && p[0] / 16 == 4 {
        Some(0)
    } else {
        None
    }
}

/// The IPv4 address at `i`.
pub open spec fn ipv4_at(p: Seq<u8>, i: int) -> Ipv4 {
    Ipv4(p[i], p[i + 1], p[i + 2], p[i + 3])
}

/// The TCP packet in link-layer data `p` of link type `dlt`, if it is one.
pub open spec fn tcp_packet_spec(dlt: u32, p: Seq<u8>) -> Option<TcpPacketV> {
    match ip_offset(dlt, p) {
        None => None,
        Some(ip) => {
            let ihl = (p[ip] % 16) as int * 4;
            let tcp = ip + ihl;
            let data = tcp + (p[tcp + 12] / 16) as int * 4;
            if p.len() < ip + 20 {
                None
            } else if p[ip] / 16 != 4 || ihl < 20 || p.len() - ip < ihl {
                None
            } else if p[ip + 9] != 6 {
                None
            } else if be16(p, ip + 6) % 0x4000 != 0 {
                None
            } else if p.len() < tcp + 20 {
                None
            } else if data < tcp + 20 || data > p.len() {
                None
            } else {
                Some(
                    TcpPacketV {
                        key: FlowKey {
                            src_ip: ipv4_at(p, ip + 12),
                            src_port: be16(p, tcp) as u16,
                            dst_ip: ipv4_at(p, ip + 16),
                            dst_port: be16(p, tcp + 2) as u16,
                        },
                        seq: be32(p, tcp + 4) as u32,
                        payload: p.skip(data),
                    },
                )
            }
        },
    }
}

/// Extract the TCP packet from a capture record's link-layer data.
///
/// `dlt` is the capture's link type (1 = Ethernet). Gives `None` for
/// anything but an unfragmented IPv4/TCP packet with complete headers.
pub fn parse_ipv4_tcp(dlt: u32, packet: &[u8]) -> (res: Option<TcpFlowPacket>)
    ensures
        match tcp_packet_spec(dlt, packet@) {
            Some(v) => res matches Some(f) && f.key == v.key && f.segment.seq == v.seq && f.segment.payload@
                == v.payload,
            None => res is None,
        },
{
    let ip_start: usize = if dlt == 1 {
        14
    } else if dlt == 101 {
        0
    } else if dlt == 113 {
        16
    } else if dlt == 104 {
        4
    } else if packet.len() > 0 && packet[0] / 16 == 4 {
        0
    } else {
        return None;
    };
    if packet.len() < ip_start + 20 {
        return None;
    }
    let version_ihl = packet[ip_start];
    let ihl = (version_ihl % 16) as usize * 4;
    if version_ihl / 16 != 4 || ihl < 20 || packet.len() - ip_start < ihl {
        return None;
    }
    if packet[ip_start + 9] != 6 {
        return None;
    }
    let frag = read_be16(packet, ip_start + 6);
    if frag % 0x4000 != 0 {
        return None;
    }
    let src_ip = Ipv4(packet[ip_start + 12], packet[ip_start + 13], packet[ip_start + 14], packet[ip_start + 15]);
    let dst_ip = Ipv4(packet[ip_start + 16], packet[ip_start + 17], packet[ip_start + 18], packet[ip_start + 19]);
    let tcp_start = ip_start + ihl;
    if packet.len() < tcp_start + 20 {
        return None;
    }
    let src_port = read_be16(packet, tcp_start);
    let dst_port = read_be16(packet, tcp_start + 2);
    let seq = read_be32(packet, tcp_start + 4);
    let data_offset = (packet[tcp_start + 12] / 16) as usize * 4;
    if data_offset < 20 || tcp_start + data_offset > packet.len() {
        return None;
    }
    let payload = copy_range(packet, tcp_start + data_offset, packet.len());
    assert(payload@ =~= packet@.skip((tcp_start + data_offset) as int));
    let key = FlowKey { src_ip, src_port, dst_ip, dst_port };
    Some(TcpFlowPacket { key, segment: TcpSegment { seq, payload } })
}

/// Whether `iph` is a well-formed IPv4 header of an unfragmented TCP
/// packet: version 4, a header length (in 32-bit words, 5 to 15) that
/// matches its size, protocol 6, and neither "more fragments" nor a
/// fragment offset.
pub open spec fn ipv4_tcp_header(iph: Seq<u8>) -> bool {
    &&& 20 <= iph.len() <= 60
    &&& iph.len() % 4 == 0
    &&& iph[0] as int == 0x40 + iph.len() / 4
    &&& iph[9] == 6
    &&& (iph[6] as int % 0x40) == 0
    &&& iph[7] == 0
}

/// Whether `tcph` is a TCP header whose data offset (in 32-bit words, 5 to
/// 15) matches its size.
pub open spec fn tcp_header(tcph: Seq<u8>) -> bool {
    &&& 20 <= tcph.len() <= 60
    &&& tcph.len() % 4 == 0
    &&& tcph[12] as int / 16 == tcph.len() / 4
}

/// The packet a link-layer header of `link.len()` bytes, an IPv4 header,
/// a TCP header and a payload make: the addresses of the IPv4 header, the
/// ports and sequence number of the TCP header, and the payload.
proof fn lemma_frame_parses(dlt: u32, link: Seq<u8>, iph: Seq<u8>, tcph: Seq<u8>, payload: Seq<u8>)
    requires
        ip_offset(dlt, link + iph + tcph + payload) == Some(link.len() as int),
        ipv4_tcp_header(iph),
        tcp_header(tcph),
    ensures
        tcp_packet_spec(dlt, link + iph + tcph + payload) == Some(
            TcpPacketV {
                key: FlowKey {
                    src_ip: Ipv4(iph[12], iph[13], iph[14], iph[15]),
                    src_port: (tcph[0] as int * 256 + tcph[1] as int) as u16,
                    dst_ip: Ipv4(iph[16], iph[17], iph[18], iph[19]),
                    dst_port: (tcph[2] as int * 256 + tcph[3] as int) as u16,
                },
                seq: (tcph[4] as int * 16777216 + tcph[5] as int * 65536 + tcph[6] as int * 256
                    + tcph[7] as int) as u32,
                payload,
            },
        ),
{
    let p = link + iph + tcph + payload;
    let ip = link.len() as int;
    let tcp = ip + iph.len();
    assert forall|k: int| 0 <= k < iph.len() implies p[ip + k] == iph[k] by {}
    assert forall|k: int| 0 <= k < tcph.len() implies p[tcp + k] == tcph[k] by {}
    assert(p[ip] == iph[0]);
    assert((p[ip] % 16) as int * 4 == iph.len()) by {
        assert(iph[0] as int % 16 == iph.len() / 4);
    }
    assert(p[ip] / 16 == 4);
    assert(p[ip + 9] == 6);
    assert(p[ip + 6] == iph[6] && p[ip + 7] == iph[7]);
    assert(be16(p, ip + 6) % 0x4000 == 0) by {
        assert(be16(p, ip + 6) == iph[6] as int * 256);
        assert((iph[6] as int * 256) % 0x4000 == 0) by (nonlinear_arith)
            requires
                iph[6] as int % 0x40 == 0,
        ;
    }
    assert(p[tcp + 12] == tcph[12]);
    assert(p.skip(tcp + tcph.len()) =~= payload);
    assert(ipv4_at(p, ip + 12) == Ipv4(iph[12], iph[13], iph[14], iph[15]));
    assert(ipv4_at(p, ip + 16) == Ipv4(iph[16], iph[17], iph[18], iph[19]));
    assert(p[tcp] == tcph[0] && p[tcp + 1] == tcph[1] && p[tcp + 2] == tcph[2] && p[tcp + 3] == tcph[3]);
    assert(p[tcp + 4] == tcph[4] && p[tcp + 5] == tcph[5] && p[tcp + 6] == tcph[6] && p[tcp + 7] == tcph[7]);
}

/// A Linux cooked capture (link type 113) frame is a 16-byte header and
/// then the IPv4 packet: any 16 bytes followed by a well-formed
/// unfragmented IPv4/TCP packet give that packet's addresses, ports,
/// sequence number and payload.
pub proof fn lemma_cooked_frame_parses(link: Seq<u8>, iph: Seq<u8>, tcph: Seq<u8>, payload: Seq<u8>)
    requires
        link.len() == 16,
        ipv4_tcp_header(iph),
        tcp_header(tcph),
    ensures
        tcp_packet_spec(113, link + iph + tcph + payload) == Some(
            TcpPacketV {
                key: FlowKey {
                    src_ip: Ipv4(iph[12], iph[13], iph[14], iph[15]),
                    src_port: (tcph[0] as int * 256 + tcph[1] as int) as u16,
                    dst_ip: Ipv4(iph[16], iph[17], iph[18], iph[19]),
                    dst_port: (tcph[2] as int * 256 + tcph[3] as int) as u16,
                },
                seq: (tcph[4] as int * 16777216 + tcph[5] as int * 65536 + tcph[6] as int * 256
                    + tcph[7] as int) as u32,
                payload,
            },
        ),
{
    lemma_frame_parses(113, link, iph, tcph, payload);
}

/// An Ethernet (link type 1) frame is a 14-byte header and then the IPv4
/// packet: any 14 bytes followed by a well-formed unfragmented IPv4/TCP
/// packet give that packet's addresses, ports, sequence number and
/// payload.
pub proof fn lemma_ethernet_frame_parses(link: Seq<u8>, iph: Seq<u8>, tcph: Seq<u8>, payload: Seq<u8>)
    requires
        link.len() == 14,
        ipv4_tcp_header(iph),
        tcp_header(tcph),
    ensures
        tcp_packet_spec(1, link + iph + tcph + payload) == Some(
            TcpPacketV {
                key: FlowKey {
                    src_ip: Ipv4(iph[12], iph[13], iph[14], iph[15]),
                    src_port: (tcph[0] as int * 256 + tcph[1] as int) as u16,
                    dst_ip: Ipv4(iph[16], iph[17], iph[18], iph[19]),
                    dst_port: (tcph[2] as int * 256 + tcph[3] as int) as u16,
                },
                seq: (tcph[4] as int * 16777216 + tcph[5] as int * 65536 + tcph[6] as int * 256
                    + tcph[7] as int) as u32,
                payload,
            },
        ),
{
    lemma_frame_parses(1, link, iph, tcph, payload);
}

/// A raw IP (link type 101) frame is the IPv4 packet itself.
pub proof fn lemma_raw_frame_parses(iph: Seq<u8>, tcph: Seq<u8>, payload: Seq<u8>)
    requires
        ipv4_tcp_header(iph),
        tcp_header(tcph),
    ensures
        tcp_packet_spec(101, iph + tcph + payload) == Some(
            TcpPacketV {
                key: FlowKey {
                    src_ip: Ipv4(iph[12], iph[13], iph[14], iph[15]),
                    src_port: (tcph[0] as int * 256 + tcph[1] as int) as u16,
                    dst_ip: Ipv4(iph[16], iph[17], iph[18], iph[19]),
                    dst_port: (tcph[2] as int * 256 + tcph[3] as int) as u16,
                },
                seq: (tcph[4] as int * 16777216 + tcph[5] as int * 65536 + tcph[6] as int * 256
                    + tcph[7] as int) as u32,
                payload,
            },
        ),
{
    let e = Seq::<u8>::empty();
    assert(e + iph =~= iph);
    lemma_frame_parses(101, e, iph, tcph, payload);
}

/// A link type 104 frame is a 4-byte header and then the IPv4 packet.
pub proof fn lemma_link104_frame_parses(link: Seq<u8>, iph: Seq<u8>, tcph: Seq<u8>, payload: Seq<u8>)
    requires
        link.len() == 4,
        ipv4_tcp_header(iph),
        tcp_header(tcph),
    ensures
        tcp_packet_spec(104, link + iph + tcph + payload) == Some(
            TcpPacketV {
                key: FlowKey {
                    src_ip: Ipv4(iph[12], iph[13], iph[14], iph[15]),
                    src_port: (tcph[0] as int * 256 + tcph[1] as int) as u16,
                    dst_ip: Ipv4(iph[16], iph[17], iph[18], iph[19]),
                    dst_port: (tcph[2] as int * 256 + tcph[3] as int) as u16,
                },
                seq: (tcph[4] as int * 16777216 + tcph[5] as int * 65536 + tcph[6] as int * 256
                    + tcph[7] as int) as u32,
                payload,
            },
        ),
{
    lemma_frame_parses(104, link, iph, tcph, payload);
}

/// Under any other link type, a frame that is a well-formed unfragmented
/// IPv4/TCP packet by itself is read as raw IPv4.
pub proof fn lemma_unknown_link_reads_raw_ipv4(dlt: u32, iph: Seq<u8>, tcph: Seq<u8>, payload: Seq<u8>)
    requires
        dlt != 1 && dlt != 101 && dlt != 113 && dlt != 104,
        ipv4_tcp_header(iph),
        tcp_header(tcph),
    ensures
        tcp_packet_spec(dlt, iph + tcph + payload) == Some(
            TcpPacketV {
                key: FlowKey {
                    src_ip: Ipv4(iph[12], iph[13], iph[14], iph[15]),
                    src_port: (tcph[0] as int * 256 + tcph[1] as int) as u16,
                    dst_ip: Ipv4(iph[16], iph[17], iph[18], iph[19]),
                    dst_port: (tcph[2] as int * 256 + tcph[3] as int) as u16,
                },
                seq: (tcph[4] as int * 16777216 + tcph[5] as int * 65536 + tcph[6] as int * 256
                    + tcph[7] as int) as u32,
                payload,
            },
        ),
{
    let e = Seq::<u8>::empty();
    assert(e + iph =~= iph);
    let p = iph + tcph + payload;
    assert(p[0] == iph[0]);
    assert(iph[0] / 16 == 4);
    lemma_frame_parses(dlt, e, iph, tcph, payload);
}

} // verus!
