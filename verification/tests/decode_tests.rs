use netwatch::addrs::{ipv4_to_string, ipv6_to_string, mac_to_string};
use netwatch::decode::decode_frame;
use netwatch::hexdump::get_payload_data;
use netwatch::record::FormatedPacket;

fn eth_frame(ethertype: u16, payload: &[u8]) -> Vec<u8> {
    let mut f: Vec<u8> = vec![0x11, 0x22, 0x33, 0x44, 0x55, 0x66];
    f.extend_from_slice(&[0xaa, 0xbb, 0xcc, 0xdd, 0xee, 0xff]);
    f.push((ethertype >> 8) as u8);
    f.push((ethertype & 0xff) as u8);
    f.extend_from_slice(payload);
    f
}

fn arp_payload(op: u16) -> Vec<u8> {
    let mut p: Vec<u8> = vec![0x00, 0x01, 0x08, 0x00, 0x06, 0x04];
    p.push((op >> 8) as u8);
    p.push((op & 0xff) as u8);
    p.extend_from_slice(&[0xaa, 0xbb, 0xcc, 0xdd, 0xee, 0xff]);
    p.extend_from_slice(&[10, 0, 0, 5]);
    p.extend_from_slice(&[0x11, 0x22, 0x33, 0x44, 0x55, 0x66]);
    p.extend_from_slice(&[10, 0, 0, 9]);
    p
}

fn ipv4_payload(proto: u8, transport: &[u8]) -> Vec<u8> {
    let total: u16 = 20 + transport.len() as u16;
    let mut p: Vec<u8> = vec![0x45, 0x00, (total >> 8) as u8, (total & 0xff) as u8];
    p.extend_from_slice(&[0x00, 0x00, 0x00, 0x00]); // id, flags, fragment
    p.push(64); // ttl
    p.push(proto);
    p.extend_from_slice(&[0x00, 0x00]); // checksum
    p.extend_from_slice(&[192, 168, 1, 2]);
    p.extend_from_slice(&[10, 0, 0, 1]);
    p.extend_from_slice(transport);
    p
}

fn tcp_header(src: u16, dst: u16, flags: u8) -> Vec<u8> {
    let mut t: Vec<u8> = vec![(src >> 8) as u8, (src & 0xff) as u8, (dst >> 8) as u8, (dst & 0xff)
        as u8];
    t.extend_from_slice(&[0, 0, 0, 0]); // sequence
    t.extend_from_slice(&[0, 0, 0, 0]); // acknowledgement
    t.push(0x50); // data offset
    t.push(flags);
    t.extend_from_slice(&[0, 0, 0, 0, 0, 0]); // window, checksum, urgent
    t
}

fn decode(frame: &[u8]) -> Option<FormatedPacket> {
    decode_frame(frame, 1, "12:00:00".to_string(), 42, "eth0")
}

#[test]
fn arp_request_decodes() {
    let frame = eth_frame(0x0806, &arp_payload(1));
    let rec = decode(&frame).expect("ARP frame should decode");
    assert_eq!(rec.number, 1);
    assert_eq!(rec.protocol, "ARP");
    assert_eq!(rec.src_ip, "10.0.0.5");
    assert_eq!(rec.dst_ip, "10.0.0.9");
    assert_eq!(rec.lenght, 28);
    assert_eq!(
        rec.info,
        "src mac: aa:bb:cc:dd:ee:ff, dst mac: 11:22:33:44:55:66, type: Request"
    );
    assert_eq!(rec.time, "12:00:00");
    assert_eq!(rec.timestamp, 42);
}

#[test]
fn arp_reply_and_unknown_operation() {
    let frame = eth_frame(0x0806, &arp_payload(2));
    let rec = decode(&frame).unwrap();
    assert!(rec.info.ends_with("type: Reply"));
    let frame = eth_frame(0x0806, &arp_payload(7));
    let rec = decode(&frame).unwrap();
    assert!(rec.info.ends_with("type: Unknown"));
}

#[test]
fn rarp_gets_its_own_label() {
    let frame = eth_frame(0x8035, &arp_payload(1));
    let rec = decode(&frame).unwrap();
    assert_eq!(rec.protocol, "RARP");
    let detail = rec.detailed_info.unwrap();
    assert_eq!(detail.frame_type, "RARP");
}

#[test]
fn tcp_frame_decodes_with_flags() {
    let frame = eth_frame(0x0800, &ipv4_payload(6, &tcp_header(443, 51820, 0x12)));
    let rec = decode(&frame).expect("TCP frame should decode");
    assert_eq!(rec.protocol, "TCP");
    assert_eq!(rec.src_ip, "192.168.1.2");
    assert_eq!(rec.dst_ip, "10.0.0.1");
    assert_eq!(rec.lenght, 20);
    assert_eq!(rec.info, "src port 443, dst port 51820, flags SYN|ACK");
}

#[test]
fn tcp_flag_order_is_fixed() {
    // All six reported flags set: SYN, ACK, FIN, RST, PSH, URG in that order.
    let frame = eth_frame(0x0800, &ipv4_payload(6, &tcp_header(1, 2, 0x3f)));
    let rec = decode(&frame).unwrap();
    assert_eq!(rec.info, "src port 1, dst port 2, flags SYN|ACK|FIN|RST|PSH|URG");
    // No flags at all: the list is empty.
    let frame = eth_frame(0x0800, &ipv4_payload(6, &tcp_header(1, 2, 0)));
    let rec = decode(&frame).unwrap();
    assert_eq!(rec.info, "src port 1, dst port 2, flags ");
}

#[test]
fn tcp_detail_is_fully_populated() {
    let transport = tcp_header(443, 51820, 0x02);
    let payload = ipv4_payload(6, &transport);
    let frame = eth_frame(0x0800, &payload);
    let rec = decode(&frame).unwrap();
    let detail = rec.detailed_info.expect("detail present on every record");
    assert_eq!(detail.interface, "eth0");
    assert_eq!(detail.src_mac, "aa:bb:cc:dd:ee:ff");
    assert_eq!(detail.dst_mac, "11:22:33:44:55:66");
    assert_eq!(detail.frame_type, "IPv4");
    assert_eq!(detail.packet_length, frame.len());
    assert_eq!(detail.payload_length, frame.len() - 14);
    assert_eq!(detail.payload_data, get_payload_data(&payload));
}

#[test]
fn udp_frame_decodes() {
    let udp: Vec<u8> = vec![0x14, 0xe9, 0x13, 0x88, 0x00, 0x08, 0x00, 0x00];
    let frame = eth_frame(0x0800, &ipv4_payload(17, &udp));
    let rec = decode(&frame).unwrap();
    assert_eq!(rec.protocol, "UDP");
    assert_eq!(rec.info, "src port 5353, dst port 5000");
    assert_eq!(rec.lenght, 8);
}

#[test]
fn icmp_frame_decodes() {
    let icmp: Vec<u8> = vec![8, 0, 0, 0, 1, 2, 3, 4];
    let frame = eth_frame(0x0800, &ipv4_payload(1, &icmp));
    let rec = decode(&frame).unwrap();
    assert_eq!(rec.protocol, "ICMP");
    assert_eq!(rec.info, "type 8");
    assert_eq!(rec.lenght, 8);
}

#[test]
fn icmpv6_over_ipv6_decodes() {
    let mut p: Vec<u8> = vec![0x60, 0, 0, 0];
    p.extend_from_slice(&[0x00, 0x04]); // payload length
    p.push(58); // next header: ICMPv6
    p.push(64); // hop limit
    // source fe80::1
    p.extend_from_slice(&[0xfe, 0x80, 0, 0, 0, 0, 0, 0, 0, 0, 0, 0, 0, 0, 0, 1]);
    // destination ::1
    p.extend_from_slice(&[0, 0, 0, 0, 0, 0, 0, 0, 0, 0, 0, 0, 0, 0, 0, 1]);
    p.extend_from_slice(&[135, 0, 0, 0]);
    let frame = eth_frame(0x86dd, &p);
    let rec = decode(&frame).unwrap();
    assert_eq!(rec.protocol, "ICMPv6");
    assert_eq!(rec.src_ip, "fe80::1");
    assert_eq!(rec.dst_ip, "::1");
    assert_eq!(rec.info, "type 135");
    assert_eq!(rec.lenght, 4);
    assert_eq!(rec.detailed_info.unwrap().frame_type, "IPv6");
}

#[test]
fn ipv4_total_length_clips_the_examined_payload() {
    // The IPv4 total-length field says 20 + 6, but 20 transport bytes follow:
    // only 6 are examined; 6 bytes are too few for a TCP header, so the frame
    // is dropped.
    let transport = tcp_header(1, 2, 0);
    let mut payload = ipv4_payload(6, &transport);
    payload[2] = 0;
    payload[3] = 26;
    let frame = eth_frame(0x0800, &payload);
    assert!(decode(&frame).is_none());
    // As UDP (8 bytes needed) the same clipping also drops the frame.
    let mut payload2 = ipv4_payload(17, &transport);
    payload2[2] = 0;
    payload2[3] = 26;
    payload2[9] = 17;
    let frame2 = eth_frame(0x0800, &payload2);
    assert!(decode(&frame2).is_none());
}

#[test]
fn malformed_frames_yield_no_record() {
    // Too short for an Ethernet header.
    assert!(decode(&[0u8; 13]).is_none());
    // Unhandled ethertype.
    let frame = eth_frame(0x88cc, &[0u8; 64]);
    assert!(decode(&frame).is_none());
    // ARP payload shorter than its fixed header.
    let frame = eth_frame(0x0806, &arp_payload(1)[..27].to_vec());
    assert!(decode(&frame).is_none());
    // IPv4 header too short.
    let frame = eth_frame(0x0800, &[0x45u8; 19]);
    assert!(decode(&frame).is_none());
    // Unsupported transport protocol is dropped silently.
    let frame = eth_frame(0x0800, &ipv4_payload(47, &[0u8; 32]));
    assert!(decode(&frame).is_none());
    // Truncated TCP header.
    let frame = eth_frame(0x0800, &ipv4_payload(6, &[0u8; 19]));
    assert!(decode(&frame).is_none());
    // IPv6 header too short.
    let frame = eth_frame(0x86dd, &[0x60u8; 39]);
    assert!(decode(&frame).is_none());
}

#[test]
fn ipv6_textual_forms_are_canonical() {
    assert_eq!(ipv6_to_string(&[0, 0, 0, 0, 0, 0, 0, 0]), "::");
    assert_eq!(ipv6_to_string(&[0, 0, 0, 0, 0, 0, 0, 1]), "::1");
    assert_eq!(ipv6_to_string(&[0xfe80, 0, 0, 0, 0, 0, 0, 1]), "fe80::1");
    // The leftmost of two equal-length zero runs is compressed.
    assert_eq!(
        ipv6_to_string(&[0x2001, 0xdb8, 0, 0, 1, 0, 0, 1]),
        "2001:db8::1:0:0:1"
    );
    // A single zero group is not compressed.
    assert_eq!(ipv6_to_string(&[1, 0, 2, 3, 4, 5, 6, 7]), "1:0:2:3:4:5:6:7");
    // IPv4-mapped addresses keep the dotted tail.
    assert_eq!(
        ipv6_to_string(&[0, 0, 0, 0, 0, 0xffff, 0xc0a8, 0x0101]),
        "::ffff:192.168.1.1"
    );
}

#[test]
fn mac_and_ipv4_textual_forms() {
    assert_eq!(mac_to_string(&[0x00, 0x0c, 0x29, 0xaa, 0xbb, 0x0f]), "00:0c:29:aa:bb:0f");
    assert_eq!(ipv4_to_string(0, 255, 10, 1), "0.255.10.1");
}
