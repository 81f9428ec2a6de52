use netwatch::filter::filter_records;
use netwatch::record::FormatedPacket;
use netwatch::store::{PacketStore, Watcher};

fn tcp_frame() -> Vec<u8> {
    let mut f: Vec<u8> = vec![0x11, 0x22, 0x33, 0x44, 0x55, 0x66];
    f.extend_from_slice(&[0xaa, 0xbb, 0xcc, 0xdd, 0xee, 0xff]);
    f.extend_from_slice(&[0x08, 0x00]);
    f.extend_from_slice(&[0x45, 0x00, 0x00, 0x28, 0, 0, 0, 0, 64, 6, 0, 0]);
    f.extend_from_slice(&[192, 168, 1, 2]);
    f.extend_from_slice(&[10, 0, 0, 1]);
    f.extend_from_slice(&[0x01, 0xbb, 0xca, 0x6c]);
    f.extend_from_slice(&[0, 0, 0, 0, 0, 0, 0, 0]);
    f.push(0x50);
    f.push(0x02);
    f.extend_from_slice(&[0, 0, 0, 0, 0, 0]);
    f
}

fn rec(number: u32, src: &str, dst: &str, protocol: &str, lenght: usize, ts: u64) -> FormatedPacket {
    FormatedPacket {
        number,
        time: "00:00:00".to_string(),
        src_ip: src.to_string(),
        dst_ip: dst.to_string(),
        protocol: protocol.to_string(),
        lenght,
        info: "x".to_string(),
        detailed_info: None,
        timestamp: ts,
    }
}

#[test]
fn store_append_snapshot_clear_replace() {
    let mut store = PacketStore::new();
    assert_eq!(store.len(), 0);
    store.append(rec(1, "a", "b", "TCP", 3, 0));
    store.append(rec(2, "c", "d", "UDP", 4, 0));
    let snap = store.snapshot();
    assert_eq!(snap.len(), 2);
    assert_eq!(snap[0].number, 1);
    assert_eq!(snap[1].number, 2);
    assert_eq!(snap[1].protocol, "UDP");
    store.clear();
    assert_eq!(store.len(), 0);
    store.replace(snap);
    assert_eq!(store.len(), 2);
}

#[test]
fn capture_session_numbers_records_gap_free() {
    let mut w = Watcher::new();
    w.start_watch();
    assert!(w.running);
    let frame = tcp_frame();
    assert!(w.handle_frame(&frame, "eth0"));
    assert!(w.handle_frame(&frame, "eth0"));
    assert!(w.handle_frame(&frame, "eth0"));
    let snap = w.store.snapshot();
    assert_eq!(snap.len(), 3);
    // Strictly increasing by exactly 1 between adjacent records.
    for i in 0..snap.len() {
        assert_eq!(snap[i].number, (i + 1) as u32);
    }
    assert_eq!(w.counter, 3);
}

#[test]
fn invalid_frames_change_nothing() {
    let mut w = Watcher::new();
    w.start_watch();
    let frame = tcp_frame();
    assert!(w.handle_frame(&frame, "eth0"));
    // A frame failing at each layer leaves store and counter untouched.
    assert!(!w.handle_frame(&[0u8; 5], "eth0"));
    assert!(!w.handle_frame(&[0u8; 200], "eth0"));
    assert_eq!(w.counter, 1);
    assert_eq!(w.store.len(), 1);
    // Repeated invalid input stays idempotent.
    for _ in 0..10 {
        assert!(!w.handle_frame(&[0u8; 13], "eth0"));
    }
    assert_eq!(w.counter, 1);
    assert!(w.handle_frame(&frame, "eth0"));
    let snap = w.store.snapshot();
    assert_eq!(snap[1].number, 2);
}

#[test]
fn starting_a_session_always_clears_prior_records() {
    let mut w = Watcher::new();
    w.start_watch();
    let frame = tcp_frame();
    w.handle_frame(&frame, "eth0");
    w.handle_frame(&frame, "eth0");
    assert_eq!(w.store.len(), 2);
    w.stop_watch();
    assert!(!w.running);
    assert_eq!(w.store.len(), 2);
    // Restart: records cleared before the first new record is appended.
    w.start_watch();
    assert_eq!(w.store.len(), 0);
    w.handle_frame(&frame, "eth0");
    let snap = w.store.snapshot();
    assert_eq!(snap.len(), 1);
    assert_eq!(snap[0].number, 1);
    // Starting from an already-empty stopped session also works.
    let mut w2 = Watcher::new();
    w2.start_watch();
    assert_eq!(w2.store.len(), 0);
}

#[test]
fn filter_all_and_empty_prefix_returns_snapshot_unchanged() {
    let mut w = Watcher::new();
    w.start_watch();
    let frame = tcp_frame();
    w.handle_frame(&frame, "eth0");
    w.handle_frame(&frame, "eth0");
    let all = w.get_packets("", "all");
    let snap = w.store.snapshot();
    assert_eq!(all.len(), snap.len());
    for i in 0..all.len() {
        assert_eq!(all[i].number, snap[i].number);
        assert_eq!(all[i].info, snap[i].info);
        assert_eq!(all[i].src_ip, snap[i].src_ip);
    }
}

#[test]
fn filter_by_protocol_and_prefix() {
    let records = vec![
        rec(1, "10.0.0.5", "8.8.8.8", "TCP", 10, 0),
        rec(2, "10.0.0.9", "8.8.4.4", "UDP", 20, 0),
    ];
    let hit = filter_records(&records, "10.0.0", "TCP");
    assert_eq!(hit.len(), 1);
    assert_eq!(hit[0].number, 1);
    let by_prefix = filter_records(&records, "10.0.0", "all");
    assert_eq!(by_prefix.len(), 2);
    let by_dst = filter_records(&records, "8.8.4", "all");
    assert_eq!(by_dst.len(), 1);
    assert_eq!(by_dst[0].number, 2);
    let none = filter_records(&records, "192.", "all");
    assert_eq!(none.len(), 0);
    let icmp = filter_records(&records, "", "ICMP");
    assert_eq!(icmp.len(), 0);
    // Order of the original snapshot is preserved.
    let both = filter_records(&records, "", "all");
    assert_eq!(both[0].number, 1);
    assert_eq!(both[1].number, 2);
}

#[test]
fn load_snapshot_failure_leaves_store_untouched() {
    let mut w = Watcher::new();
    w.start_watch();
    let frame = tcp_frame();
    w.handle_frame(&frame, "eth0");
    assert!(w.load_snapshot("this is not a snapshot").is_err());
    assert_eq!(w.store.len(), 1);
    let exported = w.export_snapshot();
    assert!(w.load_snapshot(&exported).is_ok());
    assert_eq!(w.store.len(), 1);
    let snap = w.store.snapshot();
    assert_eq!(snap[0].timestamp, 0);
    assert_eq!(snap[0].info, "src port 443, dst port 51820, flags SYN");
}
