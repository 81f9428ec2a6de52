//! The frame decoder: one raw Ethernet frame in, zero or one fully decoded
//! record out. Dispatch is on the ethertype (ARP, RARP, IPv4, IPv6), then on
//! the embedded transport protocol (TCP, UDP, ICMP, ICMPv6); any frame that
//! fails to parse at any layer yields nothing. The byte-level layout and the
//! acceptance conditions (minimum header sizes, clipped payload bounds)
//! follow the wire formats exactly.
use vstd::prelude::*;

use crate::addrs::{ipv4_to_string, ipv6_to_string, mac_to_string, spec_ipv4_str, spec_ipv6_str, spec_mac_str};
use crate::hexdump::{get_payload_data, spec_payload_dump};
use crate::record::{DetailedInfo, FormatedPacket};
use crate::textfmt::{dec_nat, push_dec_u64, push_str_chars, chars_to_string};

verus! {

/// The big-endian 16-bit value at byte offset `i`.
pub open spec fn be16(b: Seq<u8>, i: int) -> int
    recommends
        0 <= i && i + 2 <= b.len(),
{
    b[i] * 256 + b[i + 1]
}

/// The clipped transport payload of an IPv4 packet: it starts after the
/// header (at least 20 bytes, more with options), runs for the total length
/// minus the header length, and never past the end of the buffer.
pub open spec fn ipv4_payload(b: Seq<u8>) -> Seq<u8>
    recommends
        b.len() >= 20,
{
    let hl4 = 4 * (b[0] % 16) as int;
    let start = if hl4 > 20 {
        hl4
    } else {
        20
    };
    let plen = if be16(b, 2) - hl4 > 0 {
        be16(b, 2) - hl4
    } else {
        0
    };
    if b.len() <= start {
        Seq::empty()
    } else {
        b.subrange(
            start,
            if start + plen <= b.len() {
                start + plen
            } else {
                b.len() as int
            },
        )
    }
}

/// The clipped transport payload of an IPv6 packet: the bytes after the
/// fixed 40-byte header, limited by the header's payload-length field and by
/// the buffer's end.
pub open spec fn ipv6_payload(b: Seq<u8>) -> Seq<u8>
    recommends
        b.len() >= 40,
{
    let plen = be16(b, 4);
    if b.len() <= 40 {
        Seq::empty()
    } else {
        b.subrange(
            40,
            if 40 + plen <= b.len() {
                40 + plen
            } else {
                b.len() as int
            },
        )
    }
}

/// The eight 16-bit groups of an IPv6 address stored at byte offset `off`.
pub open spec fn ipv6_groups(b: Seq<u8>, off: int) -> Seq<u16>
    recommends
        0 <= off && off + 16 <= b.len(),
{
    Seq::new(8, |i: int| be16(b, off + 2 * i) as u16)
}

/// Whether a transport payload of this protocol parses: TCP needs 20 bytes,
/// UDP 8, ICMP and ICMPv6 4; any other protocol is dropped.
pub open spec fn transport_ok(tp: Seq<u8>, proto: int) -> bool {
    if proto == 6 {
        tp.len() >= 20
    } else if proto == 17 {
        tp.len() >= 8
    } else if proto == 1 {
        tp.len() >= 4
    } else if proto == 58 {
        tp.len() >= 4
    } else {
        false
    }
}

/// The protocol label for a transport protocol number.
pub open spec fn transport_label(proto: int) -> Seq<char>
    recommends
        proto == 6 || proto == 17 || proto == 1 || proto == 58,
{
    if proto == 6 {
        "TCP"@
    } else if proto == 17 {
        "UDP"@
    } else if proto == 1 {
        "ICMP"@
    } else {
        "ICMPv6"@
    }
}

/// The set TCP flag names in the fixed order SYN, ACK, FIN, RST, PSH, URG.
pub open spec fn flag_parts(f: u8) -> Seq<Seq<char>> {
    (if f & 2 != 0 {
        seq!["SYN"@]
    } else {
        Seq::<Seq<char>>::empty()
    }) + (if f & 16 != 0 {
        seq!["ACK"@]
    } else {
        Seq::<Seq<char>>::empty()
    }) + (if f & 1 != 0 {
        seq!["FIN"@]
    } else {
        Seq::<Seq<char>>::empty()
    }) + (if f & 4 != 0 {
        seq!["RST"@]
    } else {
        Seq::<Seq<char>>::empty()
    }) + (if f & 8 != 0 {
        seq!["PSH"@]
    } else {
        Seq::<Seq<char>>::empty()
    }) + (if f & 32 != 0 {
        seq!["URG"@]
    } else {
        Seq::<Seq<char>>::empty()
    })
}

/// Parts joined with `|`, with no separator around an empty list.
pub open spec fn join_pipe(parts: Seq<Seq<char>>) -> Seq<char>
    decreases parts.len(),
{
    if parts.len() == 0 {
        Seq::empty()
    } else if parts.len() == 1 {
        parts[0]
    } else {
        join_pipe(parts.drop_last()) + seq!['|'] + parts.last()
    }
}

/// The rendered TCP flag list for a flags byte.
pub open spec fn spec_tcp_flags(f: u8) -> Seq<char> {
    join_pipe(flag_parts(f))
}

/// The summary line for a transport payload that parses.
pub open spec fn transport_info(tp: Seq<u8>, proto: int) -> Seq<char>
    recommends
        transport_ok(tp, proto),
{
    if proto == 6 {
        "src port "@ + dec_nat(be16(tp, 0)) + ", dst port "@ + dec_nat(be16(tp, 2)) + ", flags "@
            + spec_tcp_flags(tp[13])
    } else if proto == 17 {
        "src port "@ + dec_nat(be16(tp, 0)) + ", dst port "@ + dec_nat(be16(tp, 2))
    } else {
        "type "@ + dec_nat(tp[0] as int)
    }
}

/// The rendered ARP operation: 1 is a request, 2 a reply.
pub open spec fn spec_arp_op(op: int) -> Seq<char> {
    if op == 2 {
        "Reply"@
    } else if op == 1 {
        "Request"@
    } else {
        "Unknown"@
    }
}

/// The summary line of an ARP packet (sender and target hardware addresses
/// and the operation).
pub open spec fn spec_arp_info(p: Seq<u8>) -> Seq<char>
    recommends
        p.len() >= 28,
{
    "src mac: "@ + spec_mac_str(p.subrange(8, 14)) + ", dst mac: "@ + spec_mac_str(
        p.subrange(18, 24),
    ) + ", type: "@ + spec_arp_op(be16(p, 6))
}

/// Whether a raw Ethernet frame decodes into a record: the frame must carry
/// a full Ethernet header, its ethertype must be ARP, RARP, IPv4 or IPv6,
/// and the inner headers down to the transport layer must all parse.
pub open spec fn spec_decodes(frame: Seq<u8>) -> bool {
    frame.len() >= 14 && {
        let et = be16(frame, 12);
        let p = frame.skip(14);
        if et == 0x0806 || et == 0x8035 {
            p.len() >= 28
        } else if et == 0x0800 {
            p.len() >= 20 && transport_ok(ipv4_payload(p), p[9] as int)
        } else if et == 0x86dd {
            p.len() >= 40 && transport_ok(ipv6_payload(p), p[6] as int)
        } else {
            false
        }
    }
}

/// The protocol label of a decodable frame.
pub open spec fn spec_protocol(frame: Seq<u8>) -> Seq<char>
    recommends
        spec_decodes(frame),
{
    let et = be16(frame, 12);
    let p = frame.skip(14);
    if et == 0x0806 {
        "ARP"@
    } else if et == 0x8035 {
        "RARP"@
    } else if et == 0x0800 {
        transport_label(p[9] as int)
    } else {
        transport_label(p[6] as int)
    }
}

/// The textual source address of a decodable frame: for ARP the sender
/// protocol address, else the IP source address.
pub open spec fn spec_src_ip(frame: Seq<u8>) -> Seq<char>
    recommends
        spec_decodes(frame),
{
    let et = be16(frame, 12);
    let p = frame.skip(14);
    if et == 0x0806 || et == 0x8035 {
        spec_ipv4_str(p[14] as int, p[15] as int, p[16] as int, p[17] as int)
    } else if et == 0x0800 {
        spec_ipv4_str(p[12] as int, p[13] as int, p[14] as int, p[15] as int)
    } else {
        spec_ipv6_str(ipv6_groups(p, 8))
    }
}

/// The textual destination address of a decodable frame: for ARP the target
/// protocol address, else the IP destination address.
pub open spec fn spec_dst_ip(frame: Seq<u8>) -> Seq<char>
    recommends
        spec_decodes(frame),
{
    let et = be16(frame, 12);
    let p = frame.skip(14);
    if et == 0x0806 || et == 0x8035 {
        spec_ipv4_str(p[24] as int, p[25] as int, p[26] as int, p[27] as int)
    } else if et == 0x0800 {
        spec_ipv4_str(p[16] as int, p[17] as int, p[18] as int, p[19] as int)
    } else {
        spec_ipv6_str(ipv6_groups(p, 24))
    }
}

/// The examined payload length of a decodable frame: for ARP the whole
/// Ethernet payload, else the clipped transport payload.
pub open spec fn spec_lenght(frame: Seq<u8>) -> int
    recommends
        spec_decodes(frame),
{
    let et = be16(frame, 12);
    let p = frame.skip(14);
    if et == 0x0806 || et == 0x8035 {
        p.len() as int
    } else if et == 0x0800 {
        ipv4_payload(p).len() as int
    } else {
        ipv6_payload(p).len() as int
    }
}

/// The summary line of a decodable frame.
pub open spec fn spec_info(frame: Seq<u8>) -> Seq<char>
    recommends
        spec_decodes(frame),
{
    let et = be16(frame, 12);
    let p = frame.skip(14);
    if et == 0x0806 || et == 0x8035 {
        spec_arp_info(p)
    } else if et == 0x0800 {
        transport_info(ipv4_payload(p), p[9] as int)
    } else {
        transport_info(ipv6_payload(p), p[6] as int)
    }
}

/// The frame type name shown in the detailed record.
pub open spec fn spec_frame_type(frame: Seq<u8>) -> Seq<char>
    recommends
        spec_decodes(frame),
{
    let et = be16(frame, 12);
    if et == 0x0806 {
        "ARP"@
    } else if et == 0x8035 {
        "RARP"@
    } else if et == 0x0800 {
        "IPv4"@
    } else {
        "IPv6"@
    }
}

/// What a decoded record's detailed part holds, as a function of the frame
/// and the interface name.
pub open spec fn decoded_detail(d: DetailedInfo, frame: Seq<u8>, iface: Seq<char>) -> bool {
    &&& d.interface@ == iface
    &&& d.src_mac@ == spec_mac_str(frame.subrange(6, 12))
    &&& d.dst_mac@ == spec_mac_str(frame.subrange(0, 6))
    &&& d.frame_type@ == spec_frame_type(frame)
    &&& d.payload_length == frame.len() - 14
    &&& d.packet_length == frame.len()
    &&& d.payload_data@ == spec_payload_dump(frame.skip(14))
}

/// What a decoded record holds (everything but the capture instant), as a
/// function of the frame, the assigned sequence number and the interface.
pub open spec fn decoded_record(
    r: FormatedPacket,
    frame: Seq<u8>,
    number: u32,
    iface: Seq<char>,
) -> bool {
    &&& r.number == number
    &&& r.src_ip@ == spec_src_ip(frame)
    &&& r.dst_ip@ == spec_dst_ip(frame)
    &&& r.protocol@ == spec_protocol(frame)
    &&& r.lenght == spec_lenght(frame)
    &&& r.info@ == spec_info(frame)
    &&& r.detailed_info matches Some(d) && decoded_detail(d, frame, iface)
}

/// The big-endian 16-bit value at byte offset `i`.
fn be16_at(b: &[u8], i: usize) -> (r: u16)
    requires
        i + 2 <= b@.len(),
    ensures
        r as int == be16(b@, i as int),
{
    (b[i] as u16) * 256 + (b[i + 1] as u16)
}

/// Appends the rendered TCP flag list for `f` to `out`.
#[verifier::rlimit(50)]
fn push_tcp_flags(out: &mut Vec<char>, f: u8)
    ensures
        final(out)@ == old(out)@ + spec_tcp_flags(f),
{
    let mut parts: Vec<&str> = Vec::new();
    if f & 2 != 0 {
        parts.push("SYN");
    }
    if f & 16 != 0 {
        parts.push("ACK");
    }
    if f & 1 != 0 {
        parts.push("FIN");
    }
    if f & 4 != 0 {
        parts.push("RST");
    }
    if f & 8 != 0 {
        parts.push("PSH");
    }
    if f & 32 != 0 {
        parts.push("URG");
    }
    proof {
        assert(parts@.len() == flag_parts(f).len());
        assert(forall|j: int| 0 <= j < parts@.len() ==> (#[trigger] parts@[j])@ == flag_parts(f)[j]);
    }
    let ghost sparts = flag_parts(f);
    let mut k: usize = 0;
    assert(out@ =~= old(out)@ + join_pipe(sparts.subrange(0, 0)));
    while k < parts.len()
        invariant
            parts@.len() == sparts.len(),
            forall|j: int| 0 <= j < parts@.len() ==> (#[trigger] parts@[j])@ == sparts[j],
            k <= parts@.len(),
            out@ == old(out)@ + join_pipe(sparts.subrange(0, k as int)),
        decreases parts@.len() - k,
    {
        if k > 0 {
            out.push('|');
        }
        push_str_chars(out, parts[k]);
        proof {
            let sub = sparts.subrange(0, (k + 1) as int);
            assert(sub.drop_last() =~= sparts.subrange(0, k as int));
            assert(sub.last() == sparts[k as int]);
            assert(out@ =~= old(out)@ + join_pipe(sub));
        }
        k += 1;
    }
    assert(sparts.subrange(0, sparts.len() as int) =~= sparts);
}

/// The summary line for a transport payload, or nothing when the payload is
/// too short for its protocol or the protocol is not handled.
fn transport_summary(tp: &[u8], proto: u8) -> (r: Option<String>)
    ensures
        r is Some <==> transport_ok(tp@, proto as int),
        r matches Some(s) ==> s@ == transport_info(tp@, proto as int),
{
    if proto == 6 {
        if tp.len() < 20 {
            return None;
        }
        let src = be16_at(tp, 0);
        let dst = be16_at(tp, 2);
        let mut out: Vec<char> = Vec::new();
        push_str_chars(&mut out, "src port ");
        push_dec_u64(&mut out, src as u64);
        push_str_chars(&mut out, ", dst port ");
        push_dec_u64(&mut out, dst as u64);
        push_str_chars(&mut out, ", flags ");
        push_tcp_flags(&mut out, tp[13]);
        assert(out@ =~= transport_info(tp@, proto as int));
        Some(chars_to_string(&out))
    } else if proto == 17 {
        if tp.len() < 8 {
            return None;
        }
        let src = be16_at(tp, 0);
        let dst = be16_at(tp, 2);
        let mut out: Vec<char> = Vec::new();
        push_str_chars(&mut out, "src port ");
        push_dec_u64(&mut out, src as u64);
        push_str_chars(&mut out, ", dst port ");
        push_dec_u64(&mut out, dst as u64);
        assert(out@ =~= transport_info(tp@, proto as int));
        Some(chars_to_string(&out))
    } else if proto == 1 || proto == 58 {
        if tp.len() < 4 {
            return None;
        }
        let mut out: Vec<char> = Vec::new();
        push_str_chars(&mut out, "type ");
        push_dec_u64(&mut out, tp[0] as u64);
        assert(out@ =~= transport_info(tp@, proto as int));
        Some(chars_to_string(&out))
    } else {
        None
    }
}

/// The protocol label for a handled transport protocol number.
fn transport_label_string(proto: u8) -> (r: String)
    requires
        proto == 6 || proto == 17 || proto == 1 || proto == 58,
    ensures
        r@ == transport_label(proto as int),
{
    if proto == 6 {
        "TCP".to_owned()
    } else if proto == 17 {
        "UDP".to_owned()
    } else if proto == 1 {
        "ICMP".to_owned()
    } else {
        "ICMPv6".to_owned()
    }
}

/// Parses the ARP fields of an Ethernet payload: source and target protocol
/// addresses, the label for the frame type, the examined length (the whole
/// payload) and the summary line.
pub fn process_arp_packet(p: &[u8], et: u16) -> (r: Option<(String, String, String, usize, String)>)
    requires
        et == 0x0806 || et == 0x8035,
    ensures
        r is Some <==> p@.len() >= 28,
        r matches Some(t) ==> {
            &&& t.0@ == spec_ipv4_str(p@[14] as int, p@[15] as int, p@[16] as int, p@[17] as int)
            &&& t.1@ == spec_ipv4_str(p@[24] as int, p@[25] as int, p@[26] as int, p@[27] as int)
            &&& t.2@ == (if et == 0x0806 {
                "ARP"@
            } else {
                "RARP"@
            })
            &&& t.3 == p@.len()
            &&& t.4@ == spec_arp_info(p@)
        },
{
    if p.len() < 28 {
        return None;
    }
    let src = ipv4_to_string(p[14], p[15], p[16], p[17]);
    let dst = ipv4_to_string(p[24], p[25], p[26], p[27]);
    let label = if et == 0x0806 {
        "ARP".to_owned()
    } else {
        "RARP".to_owned()
    };
    let op = be16_at(p, 6);
    let mut out: Vec<char> = Vec::new();
    push_str_chars(&mut out, "src mac: ");
    let sender_hw = mac_to_string(&p[8..14]);
    push_str_chars(&mut out, sender_hw.as_str());
    push_str_chars(&mut out, ", dst mac: ");
    let target_hw = mac_to_string(&p[18..24]);
    push_str_chars(&mut out, target_hw.as_str());
    push_str_chars(&mut out, ", type: ");
    if op == 2 {
        push_str_chars(&mut out, "Reply");
    } else if op == 1 {
        push_str_chars(&mut out, "Request");
    } else {
        push_str_chars(&mut out, "Unknown");
    }
    assert(out@ =~= spec_arp_info(p@));
    Some((src, dst, label, p.len(), chars_to_string(&out)))
}

/// Parses the IPv4 header of an Ethernet payload and the transport layer
/// under it.
pub fn process_ipv4_packet(p: &[u8]) -> (r: Option<(String, String, String, usize, String)>)
    ensures
        r is Some <==> (p@.len() >= 20 && transport_ok(ipv4_payload(p@), p@[9] as int)),
        r matches Some(t) ==> {
            &&& t.0@ == spec_ipv4_str(p@[12] as int, p@[13] as int, p@[14] as int, p@[15] as int)
            &&& t.1@ == spec_ipv4_str(p@[16] as int, p@[17] as int, p@[18] as int, p@[19] as int)
            &&& t.2@ == transport_label(p@[9] as int)
            &&& t.3 == ipv4_payload(p@).len()
            &&& t.4@ == transport_info(ipv4_payload(p@), p@[9] as int)
        },
{
    if p.len() < 20 {
        return None;
    }
    let proto = p[9];
    let hl4: usize = 4 * ((p[0] % 16) as usize);
    let start: usize = if hl4 > 20 {
        hl4
    } else {
        20
    };
    let total: usize = be16_at(p, 2) as usize;
    let plen: usize = if total > hl4 {
        total - hl4
    } else {
        0
    };
    if p.len() <= start {
        assert(ipv4_payload(p@) =~= Seq::<u8>::empty());
        return None;
    }
    let end: usize = if start + plen <= p.len() {
        start + plen
    } else {
        p.len()
    };
    let tp: &[u8] = &p[start..end];
    assert(tp@ =~= ipv4_payload(p@));
    match transport_summary(tp, proto) {
        None => None,
        Some(info) => {
            let src = ipv4_to_string(p[12], p[13], p[14], p[15]);
            let dst = ipv4_to_string(p[16], p[17], p[18], p[19]);
            let label = transport_label_string(proto);
            Some((src, dst, label, end - start, info))
        },
    }
}

/// Parses the IPv6 header of an Ethernet payload and the transport layer
/// under it.
pub fn process_ipv6_packet(p: &[u8]) -> (r: Option<(String, String, String, usize, String)>)
    ensures
        r is Some <==> (p@.len() >= 40 && transport_ok(ipv6_payload(p@), p@[6] as int)),
        r matches Some(t) ==> {
            &&& t.0@ == spec_ipv6_str(ipv6_groups(p@, 8))
            &&& t.1@ == spec_ipv6_str(ipv6_groups(p@, 24))
            &&& t.2@ == transport_label(p@[6] as int)
            &&& t.3 == ipv6_payload(p@).len()
            &&& t.4@ == transport_info(ipv6_payload(p@), p@[6] as int)
        },
{
    if p.len() < 40 {
        return None;
    }
    let proto = p[6];
    let plen: usize = be16_at(p, 4) as usize;
    if p.len() <= 40 {
        assert(ipv6_payload(p@) =~= Seq::<u8>::empty());
        return None;
    }
    let end: usize = if 40 + plen <= p.len() {
        40 + plen
    } else {
        p.len()
    };
    let tp: &[u8] = &p[40..end];
    assert(tp@ =~= ipv6_payload(p@));
    match transport_summary(tp, proto) {
        None => None,
        Some(info) => {
            let src = ipv6_address_string(p, 8);
            let dst = ipv6_address_string(p, 24);
            let label = transport_label_string(proto);
            Some((src, dst, label, end - 40, info))
        },
    }
}

/// The textual form of the IPv6 address stored at byte offset `off` of `p`.
fn ipv6_address_string(p: &[u8], off: usize) -> (r: String)
    requires
        off + 16 <= p@.len(),
    ensures
        r@ == spec_ipv6_str(ipv6_groups(p@, off as int)),
{
    let n = p.len();
    let mut groups: Vec<u16> = Vec::new();
    let mut k: usize = 0;
    while k < 8
        invariant
            n == p@.len(),
            off + 16 <= p@.len(),
            k <= 8,
            groups@.len() == k,
            forall|j: int| 0 <= j < k ==> groups@[j] == ipv6_groups(p@, off as int)[j],
        decreases 8 - k,
    {
        let g = be16_at(p, off + 2 * k);
        groups.push(g);
        k += 1;
    }
    assert(groups@ =~= ipv6_groups(p@, off as int));
    ipv6_to_string(groups.as_slice())
}

/// Decodes one raw Ethernet frame into a record carrying the given sequence
/// number, capture time and interface name. Returns nothing exactly when the
/// frame fails to parse at some layer; a returned record is fully populated,
/// detailed part included.
pub fn decode_frame(
    frame: &[u8],
    number: u32,
    time: String,
    timestamp: u64,
    interface: &str,
) -> (r: Option<FormatedPacket>)
    ensures
        r is Some <==> spec_decodes(frame@),
        r matches Some(p) ==> {
            &&& decoded_record(p, frame@, number, interface@)
            &&& p.time == time
            &&& p.timestamp == timestamp
        },
{
    if frame.len() < 14 {
        return None;
    }
    let et = be16_at(frame, 12);
    let payload: &[u8] = &frame[14..frame.len()];
    assert(payload@ =~= frame@.skip(14));
    let parsed: Option<(String, String, String, usize, String)> = if et == 0x0806 || et == 0x8035 {
        process_arp_packet(payload, et)
    } else if et == 0x0800 {
        process_ipv4_packet(payload)
    } else if et == 0x86dd {
        process_ipv6_packet(payload)
    } else {
        None
    };
    match parsed {
        None => None,
        Some((src_ip, dst_ip, protocol, lenght, info)) => {
            let frame_type = if et == 0x0806 {
                "ARP".to_owned()
            } else if et == 0x8035 {
                "RARP".to_owned()
            } else if et == 0x0800 {
                "IPv4".to_owned()
            } else {
                "IPv6".to_owned()
            };
            let detail = DetailedInfo {
                interface: interface.to_owned(),
                src_mac: mac_to_string(&frame[6..12]),
                dst_mac: mac_to_string(&frame[0..6]),
                frame_type,
                payload_length: frame.len() - 14,
                packet_length: frame.len(),
                payload_data: get_payload_data(payload),
            };
            Some(
                FormatedPacket {
                    number,
                    time,
                    src_ip,
                    dst_ip,
                    protocol,
                    lenght,
                    info,
                    detailed_info: Some(detail),
                    timestamp,
                },
            )
        },
    }
}

} // verus!
