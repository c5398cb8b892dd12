use grip::cli::capture::{capture_hits, hits_ja4_ready, pcap_report, quiet_lines, rank_clients, reassemble_capture};
use grip::cli::SortBy;
use grip::pcap::tcp::TcpSegment;
use grip::pcap::{extract_client_hellos, parse_ipv4_tcp, FlowKey, Ipv4, PcapReader, Reassembler};
use grip::tls::ClientHelloBuilder;

fn build_pcap(packets: &[Vec<u8>]) -> Vec<u8> {
    let mut buf = Vec::new();
    buf.extend_from_slice(&0xa1b2_c3d4u32.to_le_bytes());
    buf.extend_from_slice(&2u16.to_le_bytes());
    buf.extend_from_slice(&4u16.to_le_bytes());
    buf.extend_from_slice(&0i32.to_le_bytes());
    buf.extend_from_slice(&0u32.to_le_bytes());
    buf.extend_from_slice(&65535u32.to_le_bytes());
    buf.extend_from_slice(&1u32.to_le_bytes());
    for pkt in packets {
        buf.extend_from_slice(&1u32.to_le_bytes());
        buf.extend_from_slice(&0u32.to_le_bytes());
        buf.extend_from_slice(&(pkt.len() as u32).to_le_bytes());
        buf.extend_from_slice(&(pkt.len() as u32).to_le_bytes());
        buf.extend_from_slice(pkt);
    }
    buf
}

fn build_eth_ipv4_tcp(src_ip: Ipv4, dst_ip: Ipv4, src_port: u16, dst_port: u16, seq: u32, payload: &[u8]) -> Vec<u8> {
    let mut pkt = Vec::new();
    pkt.extend_from_slice(&[0xff; 6]);
    pkt.extend_from_slice(&[0xaa; 6]);
    pkt.extend_from_slice(&[0x08, 0x00]);
    let total_len = 20 + 20 + payload.len();
    pkt.push(0x45);
    pkt.push(0x00);
    pkt.extend_from_slice(&(total_len as u16).to_be_bytes());
    pkt.extend_from_slice(&[0x00, 0x00]);
    pkt.extend_from_slice(&[0x40, 0x00]);
    pkt.push(64);
    pkt.push(6);
    pkt.extend_from_slice(&[0x00, 0x00]);
    pkt.extend_from_slice(&src_ip.octets());
    pkt.extend_from_slice(&dst_ip.octets());
    pkt.extend_from_slice(&src_port.to_be_bytes());
    pkt.extend_from_slice(&dst_port.to_be_bytes());
    pkt.extend_from_slice(&seq.to_be_bytes());
    pkt.extend_from_slice(&[0x00, 0x00, 0x00, 0x00]);
    pkt.push(0x50);
    pkt.push(0x02);
    pkt.extend_from_slice(&[0x04, 0x00]);
    pkt.extend_from_slice(&[0x00, 0x00]);
    pkt.extend_from_slice(&[0x00, 0x00]);
    pkt.extend_from_slice(payload);
    pkt
}

fn key() -> FlowKey {
    FlowKey { src_ip: Ipv4::new(10, 0, 0, 1), src_port: 1234, dst_ip: Ipv4::new(1, 1, 1, 1), dst_port: 443 }
}

#[test]
fn extract_single() {
    let bytes = ClientHelloBuilder::new().with_sni(Some("example.com".to_string())).build();
    let hellos = extract_client_hellos(&bytes);
    assert_eq!(hellos.len(), 1);
    assert_eq!(hellos[0].sni(), Some("example.com"));
}

#[test]
fn extract_with_noise() {
    let ch_bytes = ClientHelloBuilder::new().build();
    let mut stream = vec![0x00, 0xff, 0xaa];
    stream.extend_from_slice(&ch_bytes);
    stream.extend_from_slice(&[0x00, 0x01]);
    let hellos = extract_client_hellos(&stream);
    assert_eq!(hellos.len(), 1);
}

#[test]
fn extract_fragmented_stream() {
    let b1 = ClientHelloBuilder::new().with_sni(Some("a.com".to_string())).build();
    let b2 = ClientHelloBuilder::new().with_sni(Some("b.com".to_string())).build();
    let mut stream = Vec::new();
    stream.extend_from_slice(&b1);
    stream.extend_from_slice(&b2);
    let hellos = extract_client_hellos(&stream);
    assert_eq!(hellos.len(), 2);
}

#[test]
fn no_clienthello_returns_empty() {
    let stream = b"GET / HTTP/1.1\r\nHost: example.com\r\n\r\n";
    assert!(extract_client_hellos(stream).is_empty());
}

#[test]
fn empty_pcap() {
    let buf = build_pcap(&[]);
    let mut reader = PcapReader::new(buf).unwrap();
    assert_eq!(reader.header().network, 1);
    let mut count = 0;
    while let Some(rec) = reader.next() {
        rec.unwrap();
        count += 1;
    }
    assert_eq!(count, 0);
}

#[test]
fn single_packet() {
    let pkt = vec![0xaa, 0xbb, 0xcc];
    let buf = build_pcap(&[pkt.clone()]);
    let mut reader = PcapReader::new(buf).unwrap();
    let rec = reader.next().unwrap().unwrap();
    assert_eq!(rec.data, pkt);
    assert!(reader.next().is_none());
}

#[test]
fn single_segment() {
    let mut r = Reassembler::default();
    r.insert(key(), TcpSegment { seq: 1000, payload: b"hello".to_vec() });
    assert_eq!(r.reassembled(&key()).unwrap(), b"hello");
}

#[test]
fn out_of_order() {
    let mut r = Reassembler::default();
    r.insert(key(), TcpSegment { seq: 1005, payload: b"world".to_vec() });
    r.insert(key(), TcpSegment { seq: 1000, payload: b"hello".to_vec() });
    assert_eq!(r.reassembled(&key()).unwrap(), b"helloworld");
}

#[test]
fn gap_stops() {
    let mut r = Reassembler::default();
    r.insert(key(), TcpSegment { seq: 1000, payload: b"hello".to_vec() });
    r.insert(key(), TcpSegment { seq: 1010, payload: b"world".to_vec() });
    assert_eq!(r.reassembled(&key()).unwrap(), b"hello");
}

#[test]
fn duplicate_ignored() {
    let mut r = Reassembler::default();
    r.insert(key(), TcpSegment { seq: 1000, payload: b"hello".to_vec() });
    r.insert(key(), TcpSegment { seq: 1000, payload: b"XXXXX".to_vec() });
    assert_eq!(r.reassembled(&key()).unwrap(), b"hello");
}

#[test]
fn parse_eth() {
    let pkt = build_eth_ipv4_tcp(Ipv4::new(10, 0, 0, 1), Ipv4::new(10, 0, 0, 2), 12345, 443, 1000, b"hello");
    let flow = parse_ipv4_tcp(1, &pkt).unwrap();
    assert_eq!(flow.key.src_ip, Ipv4::new(10, 0, 0, 1));
    assert_eq!(flow.segment.payload, b"hello");
    assert_eq!(flow.segment.seq, 1000);
}

#[test]
fn non_tcp_returns_none() {
    let mut pkt = build_eth_ipv4_tcp(Ipv4::new(1, 1, 1, 1), Ipv4::new(2, 2, 2, 2), 1, 2, 0, b"");
    pkt[23] = 17;
    assert!(parse_ipv4_tcp(1, &pkt).is_none());
}

#[test]
fn bad_magic_is_a_pcap_error() {
    let mut buf = build_pcap(&[]);
    buf[0] = 0;
    assert!(matches!(PcapReader::new(buf), Err(grip::GripError::Pcap(_))));
    assert!(PcapReader::new(vec![0xd4, 0xc3, 0xb2]).is_err());
}

#[test]
fn reassembly_is_independent_of_arrival_order() {
    let mut a = Reassembler::new();
    let mut b = Reassembler::new();
    let parts: [(u32, &[u8]); 3] = [(7, b"ab"), (9, b"cde"), (12, b"f")];
    for (s, p) in parts {
        a.insert(key(), TcpSegment { seq: s, payload: p.to_vec() });
    }
    for (s, p) in parts.iter().rev() {
        b.insert(key(), TcpSegment { seq: *s, payload: p.to_vec() });
    }
    assert_eq!(a.reassembled(&key()).unwrap(), b"abcdef");
    assert_eq!(b.reassembled(&key()).unwrap(), b"abcdef");
    assert_eq!(a.flow_count(), 1);
    assert_eq!(a.flow_keys(), vec![key()]);
    assert_eq!(a.all_reassembled(), vec![(key(), b"abcdef".to_vec())]);
}

#[test]
fn flow_limits_are_kept() {
    let mut r = Reassembler::with_limits(1, 4);
    r.insert(key(), TcpSegment { seq: 0, payload: b"ab".to_vec() });
    r.insert(key(), TcpSegment { seq: 2, payload: b"cdef".to_vec() });
    let other = FlowKey { src_port: 999, ..key() };
    r.insert(other, TcpSegment { seq: 0, payload: b"zz".to_vec() });
    assert_eq!(r.flow_count(), 1);
    assert!(r.reassembled(&other).is_none());
    assert_eq!(r.reassembled(&key()).unwrap(), b"ab");
}

#[test]
fn capture_with_a_split_client_hello_is_ranked() {
    let hello = ClientHelloBuilder::new().with_sni(Some("example.com".to_string())).build();
    let (first, second) = hello.split_at(40);
    let src = Ipv4::new(192, 168, 1, 5);
    let dst = Ipv4::new(93, 184, 216, 34);
    let packets = vec![
        build_eth_ipv4_tcp(src, dst, 50000, 443, 5000 + 40, second),
        build_eth_ipv4_tcp(src, dst, 50000, 443, 5000, first),
        vec![0x01, 0x02, 0x03],
    ];
    let (r, n_packets, n_tcp) = reassemble_capture(build_pcap(&packets)).unwrap();
    assert_eq!(n_packets, 3);
    assert_eq!(n_tcp, 2);
    let hits = capture_hits(&r, None);
    assert_eq!(hits.len(), 1);
    assert_eq!(hits[0].0, "192.168.1.5");
    assert!(hits_ja4_ready(&hits));
    let clients = rank_clients(&hits, true, true, false, SortBy::Count);
    assert_eq!(clients.len(), 1);
    assert_eq!(clients[0].ja4, "t13d1305h2_bda08f0cbb17_c83d862dc2aa");
    assert_eq!(clients[0].ja3.as_deref(), Some("d879bc8777862a634eecc81a0d21e701"));
    assert_eq!(clients[0].client.as_deref(), Some("grip"));
    assert_eq!(clients[0].count, 1);
    let report = pcap_report("cap.pcap".to_string(), clients);
    assert_eq!(report.total_handshakes, 1);
    assert_eq!(report.unique_clients, 1);
    assert_eq!(quiet_lines(&report, true), vec!["d879bc8777862a634eecc81a0d21e701".to_string()]);
    assert_eq!(quiet_lines(&report, false), vec!["t13d1305h2_bda08f0cbb17_c83d862dc2aa".to_string()]);
    assert!(capture_hits(&r, Some("10.0.0.9")).is_empty());
}

#[test]
fn ranking_counts_merges_and_sorts() {
    let hello = ClientHelloBuilder::new().with_sni(Some("example.com".to_string())).build();
    let other = ClientHelloBuilder::new().with_sni(None).build();
    let ch = grip::tls::ClientHello::parse(&hello).unwrap();
    let ch2 = grip::tls::ClientHello::parse(&other).unwrap();
    let hits = vec![
        ("10.0.0.2".to_string(), ch.clone()),
        ("10.0.0.1".to_string(), ch.clone()),
        ("10.0.0.2".to_string(), ch.clone()),
        ("10.0.0.3".to_string(), ch2.clone()),
    ];
    let rows = rank_clients(&hits, false, false, false, SortBy::Count);
    assert_eq!(rows.len(), 3);
    assert_eq!((rows[0].ip.as_str(), rows[0].count), ("10.0.0.2", 2));
    assert_eq!(rows[0].client, None);
    assert_eq!(rows[0].ja3, None);
    let by_ip = rank_clients(&hits, false, false, false, SortBy::Ip);
    assert_eq!(by_ip[0].ip, "10.0.0.1");
    let unique = rank_clients(&hits, false, false, true, SortBy::Count);
    assert_eq!(unique.len(), 2);
    assert_eq!((unique[0].ip.as_str(), unique[0].count), ("10.0.0.1", 3));
}

#[test]
fn dropped_segment_takes_a_slot_but_is_not_listed() {
    let mut r = Reassembler::with_limits(10, 3);
    r.insert(key(), TcpSegment { seq: 0, payload: b"hello".to_vec() });
    assert_eq!(r.flow_count(), 1);
    assert!(r.flow_keys().is_empty());
    r.insert(key(), TcpSegment { seq: 0, payload: b"hi".to_vec() });
    assert_eq!(r.flow_keys(), vec![key()]);
}

#[test]
fn segment_keys_come_in_increasing_order() {
    let mut m = std::collections::BTreeMap::new();
    for k in [30u32, 10, 20] {
        m.insert(k, vec![1u8]);
    }
    assert_eq!(grip::pcap::segment_order::sorted_seg_keys(&m), vec![10, 20, 30]);
}
