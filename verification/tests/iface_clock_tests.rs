use netwatch::clock::{current_time, format_time};
use netwatch::ifaces::{get_default_interface, get_interface, InterfaceInfo};

fn iface(name: &str, up: bool, lo: bool, v4: bool) -> InterfaceInfo {
    InterfaceInfo { name: name.to_string(), is_up: up, is_loopback: lo, has_ipv4: v4 }
}

#[test]
fn requested_interface_is_preferred() {
    let list = vec![
        iface("lo", true, true, true),
        iface("eth0", true, false, true),
        iface("wlan0", true, false, true),
    ];
    assert_eq!(get_interface(&list, "wlan0"), Some(2));
    assert_eq!(get_interface(&list, "eth0"), Some(1));
    // Even a loopback can be chosen when asked for by name.
    assert_eq!(get_interface(&list, "lo"), Some(0));
}

#[test]
fn unknown_name_falls_back_to_the_default_interface() {
    let list = vec![
        iface("lo", true, true, true),
        iface("down0", false, false, true),
        iface("nov4", true, false, false),
        iface("eth0", true, false, true),
    ];
    assert_eq!(get_interface(&list, "tun9"), Some(3));
    assert_eq!(get_default_interface(&list), Some(3));
}

#[test]
fn no_suitable_interface_is_fatal_at_the_caller() {
    let list = vec![iface("lo", true, true, true), iface("down0", false, false, true)];
    assert_eq!(get_default_interface(&list), None);
    assert_eq!(get_interface(&list, "missing"), None);
    let empty: Vec<InterfaceInfo> = Vec::new();
    assert_eq!(get_default_interface(&empty), None);
}

#[test]
fn time_of_day_renders_zero_padded() {
    assert_eq!(format_time(0, 0, 0), "00:00:00");
    assert_eq!(format_time(23, 59, 59), "23:59:59");
    assert_eq!(format_time(9, 5, 7), "09:05:07");
}

#[test]
fn current_time_has_the_documented_shape() {
    let (time, _micros) = current_time();
    let bytes = time.as_bytes();
    assert_eq!(bytes.len(), 8);
    assert_eq!(bytes[2], b':');
    assert_eq!(bytes[5], b':');
    for k in [0, 1, 3, 4, 6, 7] {
        assert!(bytes[k].is_ascii_digit());
    }
}
