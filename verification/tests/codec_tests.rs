use netwatch::codec::{export_packets, import_packets};
use netwatch::record::{DetailedInfo, FormatedPacket};

fn sample_detail() -> DetailedInfo {
    DetailedInfo {
        interface: "eth0".to_string(),
        src_mac: "aa:bb:cc:dd:ee:ff".to_string(),
        dst_mac: "11:22:33:44:55:66".to_string(),
        frame_type: "IPv4".to_string(),
        payload_length: 40,
        packet_length: 54,
        payload_data: "0000  48 69\n".to_string(),
    }
}

fn sample_record(number: u32, detail: Option<DetailedInfo>) -> FormatedPacket {
    FormatedPacket {
        number,
        time: "12:34:56".to_string(),
        src_ip: "192.168.1.2".to_string(),
        dst_ip: "10.0.0.1".to_string(),
        protocol: "TCP".to_string(),
        lenght: 20,
        info: "src port 443, dst port 51820, flags SYN|ACK".to_string(),
        detailed_info: detail,
        timestamp: 123_456_789,
    }
}

fn assert_same_but_timestamp(a: &FormatedPacket, b: &FormatedPacket) {
    assert_eq!(a.number, b.number);
    assert_eq!(a.time, b.time);
    assert_eq!(a.src_ip, b.src_ip);
    assert_eq!(a.dst_ip, b.dst_ip);
    assert_eq!(a.protocol, b.protocol);
    assert_eq!(a.lenght, b.lenght);
    assert_eq!(a.info, b.info);
    match (&a.detailed_info, &b.detailed_info) {
        (None, None) => {},
        (Some(x), Some(y)) => {
            assert_eq!(x.interface, y.interface);
            assert_eq!(x.src_mac, y.src_mac);
            assert_eq!(x.dst_mac, y.dst_mac);
            assert_eq!(x.frame_type, y.frame_type);
            assert_eq!(x.payload_length, y.payload_length);
            assert_eq!(x.packet_length, y.packet_length);
            assert_eq!(x.payload_data, y.payload_data);
        },
        _ => panic!("detail presence differs"),
    }
}

#[test]
fn empty_snapshot_round_trips() {
    let packets: Vec<FormatedPacket> = Vec::new();
    let text = export_packets(&packets);
    assert_eq!(text, "[]");
    let back = import_packets(&text).expect("empty snapshot re-imports");
    assert_eq!(back.len(), 0);
}

#[test]
fn snapshot_round_trips_except_timestamp() {
    let packets = vec![
        sample_record(1, Some(sample_detail())),
        sample_record(2, None),
    ];
    let text = export_packets(&packets);
    let back = import_packets(&text).expect("own encoding re-imports");
    assert_eq!(back.len(), 2);
    for i in 0..2 {
        assert_same_but_timestamp(&packets[i], &back[i]);
        // The capture instant is session-local: reset on import.
        assert_eq!(back[i].timestamp, 0);
    }
}

#[test]
fn awkward_characters_survive_the_round_trip() {
    let mut r = sample_record(1, None);
    r.info = "quote \" backslash \\ newline \n tab \t bell \u{7} end".to_string();
    r.src_ip = "weird \u{1f} prefix".to_string();
    let packets = vec![r];
    let text = export_packets(&packets);
    let back = import_packets(&text).expect("escaped text re-imports");
    assert_same_but_timestamp(&packets[0], &back[0]);
}

#[test]
fn exported_field_names_follow_the_record() {
    let packets = vec![sample_record(7, Some(sample_detail()))];
    let text = export_packets(&packets);
    assert!(text.starts_with("[{\"number\":7,\"time\":\"12:34:56\","));
    for name in [
        "\"number\":", "\"time\":", "\"src_ip\":", "\"dst_ip\":", "\"protocol\":", "\"lenght\":",
        "\"info\":", "\"detailed_info\":", "\"interface\":", "\"src_mac\":", "\"dst_mac\":",
        "\"frame_type\":", "\"payload_length\":", "\"packet_length\":", "\"payload_data\":",
    ] {
        assert!(text.contains(name), "missing field name {}", name);
    }
    // The capture instant is not serialized at all.
    assert!(!text.contains("timestamp"));
}

#[test]
fn export_is_well_formed_structured_text() {
    let packets = vec![
        sample_record(1, Some(sample_detail())),
        sample_record(2, None),
    ];
    let text = export_packets(&packets);
    let value: serde_json::Value = serde_json::from_str(&text).expect("export parses as JSON");
    let arr = value.as_array().expect("top level is an array");
    assert_eq!(arr.len(), 2);
    assert_eq!(arr[0]["number"], 1);
    assert_eq!(arr[0]["src_ip"], "192.168.1.2");
    assert_eq!(arr[0]["lenght"], 20);
    assert_eq!(arr[0]["detailed_info"]["payload_data"], "0000  48 69\n");
    assert!(arr[1]["detailed_info"].is_null());
}

#[test]
fn malformed_snapshots_are_rejected_without_panicking() {
    assert!(import_packets("").is_err());
    assert!(import_packets("{}").is_err());
    assert!(import_packets("[").is_err());
    assert!(import_packets("[]extra").is_err());
    assert!(import_packets("[{\"number\":1}]").is_err());
    assert!(import_packets("not json at all").is_err());
    // A number out of range of its field is a reported failure.
    let packets = vec![sample_record(1, None)];
    let text = export_packets(&packets);
    let huge = text.replace("\"number\":1", "\"number\":5000000000");
    assert!(import_packets(&huge).is_err());
    // An unterminated string is a reported failure.
    let broken = text.replace("TCP\"", "TCP");
    assert!(import_packets(&broken).is_err());
}

#[test]
fn error_carries_a_readable_message() {
    let err = import_packets("nonsense").unwrap_err();
    assert_eq!(err.message(), "invalid snapshot data");
    let api = netwatch::errors::ApiError::AppError(err.message());
    let lines = api.to_vec_string();
    assert_eq!(lines.len(), 1);
    assert_eq!(lines[0], "invalid snapshot data");
}
