use quarry::capture::{CaptureShared, Conversation, MAX_CONVS};
use quarry::net::Ipv4;

const HOST: Ipv4 = Ipv4 { a: 192, b: 168, c: 0, d: 2 };

fn packet(proto: u8, src: [u8; 4], dst: [u8; 4], sport: u16, dport: u16, len: u16) -> Vec<u8> {
    let mut p = vec![0u8; 28];
    p[0] = 0x45;
    p[2..4].copy_from_slice(&len.to_be_bytes());
    p[9] = proto;
    p[12..16].copy_from_slice(&src);
    p[16..20].copy_from_slice(&dst);
    p[20..22].copy_from_slice(&sport.to_be_bytes());
    p[22..24].copy_from_slice(&dport.to_be_bytes());
    p
}

#[test]
fn both_directions_are_one_conversation() {
    let mut s = CaptureShared::new();
    s.ingest(HOST, &packet(17, [192, 168, 0, 2], [8, 8, 8, 8], 5000, 53, 60), 10);
    s.ingest(HOST, &packet(17, [8, 8, 8, 8], [192, 168, 0, 2], 53, 5000, 120), 20);
    assert_eq!(s.convs.len(), 1);
    let c = s.convs[0];
    assert_eq!(c.local_port, 5000);
    assert_eq!(c.remote_ip.text(), "8.8.8.8");
    assert_eq!(c.remote_port, 53);
    assert_eq!(c.packets, 2);
    assert_eq!(c.bytes, 180);
    assert_eq!(c.last_ms, 20);
    assert_eq!(c.proto_name(), "UDP");
    assert_eq!(s.total_packets, 2);
    assert_eq!(s.total_bytes, 180);
}

#[test]
fn what_is_no_packet_is_left() {
    let mut s = CaptureShared::new();
    s.ingest(HOST, &[0x45; 10], 1);
    let mut v6 = packet(6, [192, 168, 0, 2], [1, 1, 1, 1], 1, 2, 40);
    v6[0] = 0x65;
    s.ingest(HOST, &v6, 1);
    let mut short_header = packet(6, [192, 168, 0, 2], [1, 1, 1, 1], 1, 2, 40);
    short_header[0] = 0x44;
    s.ingest(HOST, &short_header, 1);
    assert!(s.convs.is_empty());
    assert_eq!(s.total_packets, 0);
}

#[test]
fn other_protocols_have_no_ports() {
    let mut s = CaptureShared::new();
    s.ingest(HOST, &packet(1, [192, 168, 0, 2], [1, 1, 1, 1], 7, 8, 40), 1);
    assert_eq!(s.convs[0].proto_name(), "ICMP");
    assert_eq!((s.convs[0].local_port, s.convs[0].remote_port), (0, 0));
}

#[test]
fn packets_between_others_count_as_sent() {
    let mut s = CaptureShared::new();
    s.ingest(HOST, &packet(17, [10, 0, 0, 1], [224, 0, 0, 251], 5353, 5354, 40), 1);
    assert_eq!(s.convs[0].local_port, 5353);
    assert_eq!(s.convs[0].remote_ip.text(), "224.0.0.251");
    assert_eq!(s.convs[0].remote_port, 5354);
}

#[test]
fn conversations_have_a_limit() {
    let mut s = CaptureShared::new();
    for i in 0..(MAX_CONVS as u32 + 10) {
        let port = (i % 60000) as u16 + 1;
        s.ingest(HOST, &packet(6, [192, 168, 0, 2], [9, 9, 9, 9], port, 443, 40), i as u64);
    }
    assert_eq!(s.convs.len(), MAX_CONVS);
    assert_eq!(s.total_packets, MAX_CONVS as u64 + 10);
    assert_eq!(s.convs.iter().map(|c| c.packets).sum::<u64>(), MAX_CONVS as u64);
    assert!(s.convs.iter().map(|c| c.bytes).sum::<u64>() < s.total_bytes);
}

#[test]
fn totals_are_sums_over_the_conversations() {
    let mut s = CaptureShared::new();
    for i in 0..50u16 {
        let port = 1000 + i % 7;
        s.ingest(HOST, &packet(6, [192, 168, 0, 2], [9, 9, 9, 9], port, 443, 40 + i), i as u64);
    }
    assert_eq!(s.convs.len(), 7);
    assert_eq!(s.convs.iter().map(|c| c.packets).sum::<u64>(), 50);
    assert_eq!(s.convs.iter().map(|c| c.bytes).sum::<u64>(), 3225);
    assert_eq!((s.total_packets, s.total_bytes), (50, 3225));
}

#[test]
fn names_of_protocols() {
    let mut c = Conversation {
        proto: 6,
        local_port: 1,
        remote_ip: HOST,
        remote_port: 2,
        packets: 0,
        bytes: 0,
        last_ms: 0,
    };
    assert_eq!(c.proto_name(), "TCP");
    c.proto = 17;
    assert_eq!(c.proto_name(), "UDP");
    c.proto = 99;
    assert_eq!(c.proto_name(), "IP");
}
