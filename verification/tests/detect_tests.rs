use netwatch::detect::{
    analyze_clusters, compute_rate, dos_detect, extract_features, protocol_code, rate_gt, Rate,
};
use netwatch::record::FormatedPacket;

fn rec(number: u32, src: &str, dst: &str, protocol: &str, lenght: usize, ts: u64) -> FormatedPacket {
    FormatedPacket {
        number,
        time: "00:00:00".to_string(),
        src_ip: src.to_string(),
        dst_ip: dst.to_string(),
        protocol: protocol.to_string(),
        lenght,
        info: String::new(),
        detailed_info: None,
        timestamp: ts,
    }
}

/// The synthetic burst: 30 records, one source, one destination, 40 bytes
/// each, spanning a tenth of a second.
fn burst() -> Vec<FormatedPacket> {
    let mut v = Vec::new();
    for k in 0..30u32 {
        let ts = if k == 29 { 100_000 } else { (k as u64) * 3_000 };
        v.push(rec(k + 1, "10.0.0.5", "10.0.0.1", "UDP", 40, ts));
    }
    v
}

#[test]
fn empty_store_yields_no_flags() {
    let packets: Vec<FormatedPacket> = Vec::new();
    let labels: Vec<usize> = Vec::new();
    assert_eq!(dos_detect(&packets, &labels).len(), 0);
}

#[test]
fn protocol_codes() {
    assert_eq!(protocol_code("TCP"), 1);
    assert_eq!(protocol_code("UDP"), 2);
    assert_eq!(protocol_code("ICMP"), 3);
    assert_eq!(protocol_code("ICMPv6"), 0);
    assert_eq!(protocol_code("ARP"), 0);
}

#[test]
fn features_count_address_frequencies() {
    let packets = vec![
        rec(1, "a", "x", "TCP", 10, 0),
        rec(2, "a", "y", "UDP", 20, 5),
        rec(3, "b", "x", "ICMP", 30, 9),
    ];
    let f = extract_features(&packets);
    assert_eq!(f.len(), 3);
    assert_eq!(f[0].src_freq, 2);
    assert_eq!(f[0].dst_freq, 2);
    assert_eq!(f[0].protocol_code, 1);
    assert_eq!(f[0].byte_length, 10);
    assert_eq!(f[1].src_freq, 2);
    assert_eq!(f[1].dst_freq, 1);
    assert_eq!(f[1].protocol_code, 2);
    assert_eq!(f[2].src_freq, 1);
    assert_eq!(f[2].dst_freq, 2);
    assert_eq!(f[2].protocol_code, 3);
    let rate = compute_rate(&packets);
    assert_eq!(rate.packets, 3);
    assert_eq!(rate.span_micros, 9);
}

#[test]
fn rate_comparison_is_exact() {
    // 30 packets over 0.1 s: 300/s.
    let r = Rate { packets: 30, span_micros: 100_000 };
    assert!(rate_gt(r, 100));
    assert!(rate_gt(r, 299));
    assert!(!rate_gt(r, 300));
    // A zero span counts as rate zero.
    let z = Rate { packets: 1_000_000, span_micros: 0 };
    assert!(!rate_gt(z, 0));
    // Exactly at the threshold is not over it.
    let edge = Rate { packets: 100, span_micros: 1_000_000 };
    assert!(!rate_gt(edge, 100));
    assert!(rate_gt(edge, 99));
}

#[test]
fn high_rate_burst_is_flagged_under_any_labeling() {
    let packets = burst();
    // One cluster holding everything.
    let labels = vec![0usize; 30];
    let flagged = dos_detect(&packets, &labels);
    assert!(flagged.len() >= 1);
    assert_eq!(flagged[0].cluster, 0);
    assert_eq!(flagged[0].count, 30);
    // An arbitrary 3-way split still flags at least one cluster, since the
    // session rate of 300/s crosses the threshold for every cluster.
    let labels: Vec<usize> = (0..30).map(|k| k % 3).collect();
    let flagged = dos_detect(&packets, &labels);
    assert!(flagged.len() >= 1);
    assert_eq!(flagged.len(), 3);
}

#[test]
fn address_frequency_alone_can_flag() {
    // 12 slow packets from one source: mean source frequency 12 > 10, while
    // the rate stays low (12 packets over 120 s).
    let mut packets = Vec::new();
    for k in 0..12u32 {
        packets.push(rec(k + 1, "10.0.0.5", "10.0.0.1", "TCP", 500, (k as u64) * 10_000_000));
    }
    let labels = vec![0usize; 12];
    let rate = compute_rate(&packets);
    assert!(!rate_gt(rate, 50));
    let flagged = dos_detect(&packets, &labels);
    assert_eq!(flagged.len(), 1);
    assert_eq!(flagged[0].src_freq_sum, 12 * 12);
    assert_eq!(flagged[0].dst_freq_sum, 12 * 12);
    assert_eq!(flagged[0].length_sum, 12 * 500);
}

#[test]
fn calm_diverse_traffic_is_not_flagged() {
    // Nine packets, distinct addresses, large payloads, slow rate.
    let mut packets = Vec::new();
    for k in 0..9u32 {
        packets.push(rec(
            k + 1,
            &format!("10.0.1.{}", k),
            &format!("10.0.2.{}", k),
            "TCP",
            1400,
            (k as u64) * 5_000_000,
        ));
    }
    let labels: Vec<usize> = (0..9).map(|k| k % 3).collect();
    let flagged = dos_detect(&packets, &labels);
    assert_eq!(flagged.len(), 0);
}

#[test]
fn small_packets_at_medium_rate_are_flagged() {
    // 60/s with 40-byte packets: under the 100/s rule but over the
    // small-packet rule (mean length < 100 and rate > 50).
    let mut packets = Vec::new();
    for k in 0..6u32 {
        packets.push(rec(
            k + 1,
            &format!("10.1.0.{}", k),
            &format!("10.2.0.{}", k),
            "UDP",
            40,
            (k as u64) * 20_000,
        ));
    }
    let labels = vec![1usize; 6];
    let rate = compute_rate(&packets);
    assert!(rate_gt(rate, 50) && !rate_gt(rate, 100));
    let flagged = dos_detect(&packets, &labels);
    assert_eq!(flagged.len(), 1);
    assert_eq!(flagged[0].cluster, 1);
}

#[test]
fn reports_come_in_ascending_cluster_order_with_exact_sums() {
    let packets = burst();
    let features = extract_features(&packets);
    let rate = compute_rate(&packets);
    let labels: Vec<usize> = (0..30).map(|k| if k < 10 { 2 } else { 0 }).collect();
    let reports = analyze_clusters(&features, &labels, rate);
    assert_eq!(reports.len(), 2);
    assert!(reports[0].cluster < reports[1].cluster);
    assert_eq!(reports[0].cluster, 0);
    assert_eq!(reports[0].count, 20);
    assert_eq!(reports[1].cluster, 2);
    assert_eq!(reports[1].count, 10);
    assert_eq!(reports[0].src_freq_sum, 20 * 30);
    assert_eq!(reports[1].length_sum, 10 * 40);
}
