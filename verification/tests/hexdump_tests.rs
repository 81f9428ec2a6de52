use netwatch::hexdump::get_payload_data;

#[test]
fn twenty_byte_payload_gives_two_aligned_lines() {
    let payload: Vec<u8> = (0u8..20).collect();
    let dump = get_payload_data(&payload);
    let lines: Vec<&str> = dump.split('\n').filter(|l| !l.is_empty()).collect();
    assert_eq!(lines.len(), 2);
    assert_eq!(
        lines[0],
        "0000  00 01 02 03 04 05 06 07  08 09 0a 0b 0c 0d 0e 0f  ................"
    );
    assert_eq!(
        lines[1],
        format!("0010  10 11 12 13{}....", " ".repeat(39))
    );
    // Offset, hex and ASCII columns line up across both lines.
    assert_eq!(lines[0].len(), 4 + 2 + 49 + 1 + 16);
    assert_eq!(lines[1].len(), 4 + 2 + 49 + 1 + 4);
    assert_eq!(&lines[0][4..6], "  ");
    assert_eq!(&lines[1][4..6], "  ");
    assert_eq!(lines[0].chars().nth(55), Some(' '));
    assert_eq!(lines[1].chars().nth(55), Some(' '));
    assert_eq!(lines[0].chars().nth(56), Some('.'));
    assert_eq!(lines[1].chars().nth(56), Some('.'));
    assert!(dump.ends_with('\n'));
}

#[test]
fn empty_payload_gives_empty_dump() {
    assert_eq!(get_payload_data(&[]), "");
}

#[test]
fn printable_bytes_show_themselves() {
    let payload = b"Hello, world!".to_vec();
    let dump = get_payload_data(&payload);
    assert!(dump.contains("Hello, world!"));
    assert!(dump.starts_with("0000  48 65 6c 6c 6f 2c 20 77  6f 72 6c 64 21 "));
}

#[test]
fn unprintable_bytes_become_dots() {
    let payload: Vec<u8> = vec![0x00, 0x1f, 0x20, 0x7e, 0x7f, 0xff];
    let dump = get_payload_data(&payload);
    let ascii: String = dump.trim_end().chars().skip(56).collect();
    assert_eq!(ascii, ".. ~..");
}

#[test]
fn a_full_line_has_no_padding_and_a_short_line_is_padded() {
    let full = get_payload_data(&vec![0u8; 16]);
    let short = get_payload_data(&vec![0u8; 3]);
    let full_line = full.trim_end();
    let short_line = short.trim_end();
    // Same ASCII start column in both.
    assert_eq!(&full_line[55..57], " .");
    assert_eq!(&short_line[55..57], " .");
    assert_eq!(full_line.len(), 4 + 2 + 49 + 1 + 16);
    assert_eq!(short_line.len(), 4 + 2 + 49 + 1 + 3);
}

#[test]
fn offsets_grow_by_sixteen_per_line() {
    let payload: Vec<u8> = vec![0xab; 40];
    let dump = get_payload_data(&payload);
    let offsets: Vec<String> = dump
        .lines()
        .map(|l| l.chars().take(4).collect::<String>())
        .collect();
    assert_eq!(offsets, vec!["0000".to_string(), "0010".to_string(), "0020".to_string()]);
}
