use bootmgr::device_path::{parse_device_path_node, walk_device_path};
use bootmgr::error::BootError;

fn node(t: u8, st: u8, payload: &[u8]) -> Vec<u8> {
    let len = (payload.len() + 4) as u16;
    let mut out = vec![t, st, (len & 0xff) as u8, (len >> 8) as u8];
    out.extend_from_slice(payload);
    out
}

fn terminal() -> Vec<u8> {
    vec![0x7F, 0xFF, 0x04, 0x00]
}

fn utf16z(s: &str) -> Vec<u8> {
    let mut out = Vec::new();
    for u in s.encode_utf16() {
        out.push((u & 0xff) as u8);
        out.push((u >> 8) as u8);
    }
    out.push(0);
    out.push(0);
    out
}

#[test]
fn parses_one_node() {
    let b = node(0x04, 0x01, &[1, 2, 3]);
    let n = parse_device_path_node(&b, 0).unwrap();
    assert_eq!(n.node_type, 0x04);
    assert_eq!(n.subtype, 0x01);
    assert_eq!(n.length, 7);
    assert_eq!(n.payload, vec![1, 2, 3]);
}

#[test]
fn node_header_past_end_is_malformed() {
    let b = vec![0x04, 0x01];
    assert_eq!(
        parse_device_path_node(&b, 0).unwrap_err(),
        BootError::MalformedNodeLength
    );
}

#[test]
fn node_length_zero_is_malformed() {
    let b = vec![0x04, 0x01, 0x00, 0x00];
    assert_eq!(
        parse_device_path_node(&b, 0).unwrap_err(),
        BootError::MalformedNodeLength
    );
}

#[test]
fn node_length_past_end_is_malformed() {
    let b = vec![0x04, 0x01, 0x20, 0x00, 1, 2];
    assert_eq!(
        parse_device_path_node(&b, 0).unwrap_err(),
        BootError::MalformedNodeLength
    );
}

#[test]
fn hard_drive_then_terminal() {
    let mut b = node(0x04, 0x01, &[0; 12]);
    b.extend_from_slice(&terminal());
    let s = walk_device_path(&b).unwrap();
    assert_eq!(s.labels, vec!["Hard Drive".to_string()]);
    assert_eq!(s.final_media_file, None);
}

#[test]
fn messaging_labels_match_the_table() {
    let cases: Vec<(u8, &str)> = vec![
        (1, "ATAPI"),
        (2, "SCSI"),
        (3, "Fibre Channel"),
        (21, "Fibre Channel"),
        (4, "1394"),
        (5, "USB"),
        (15, "USB"),
        (16, "USB"),
        (6, "I2O"),
        (9, "Network"),
        (11, "Network"),
        (12, "Network"),
        (13, "Network"),
        (20, "Network"),
        (28, "Network"),
        (31, "Network"),
        (10, "Vendor specific"),
        (18, "SATA"),
        (19, "iSCSI"),
        (22, "SAS"),
        (23, "NVMe"),
        (24, "URI"),
        (25, "UFS"),
        (26, "SD Card"),
        (27, "Bluetooth"),
        (30, "Bluetooth"),
        (29, "eMMC"),
        (32, "NVDIMM"),
    ];
    for (st, want) in cases {
        let mut b = node(0x03, st, &[]);
        b.extend_from_slice(&terminal());
        let s = walk_device_path(&b).unwrap();
        assert_eq!(s.labels, vec![want.to_string()], "subtype {}", st);
    }
}

#[test]
fn messaging_subtype_17_is_suppressed() {
    let mut b = node(0x03, 17, &[]);
    b.extend_from_slice(&node(0x03, 18, &[]));
    b.extend_from_slice(&terminal());
    let s = walk_device_path(&b).unwrap();
    assert_eq!(s.labels, vec!["SATA".to_string()]);
}

#[test]
fn unknown_messaging_subtype_is_unsupported() {
    let mut b = node(0x03, 7, &[]);
    b.extend_from_slice(&terminal());
    assert_eq!(walk_device_path(&b).unwrap_err(), BootError::UnsupportedNode);
}

#[test]
fn media_file_path_label_is_the_embedded_text() {
    let mut b = node(0x04, 0x04, &utf16z("\\EFI\\BOOT\\grubx64.efi"));
    b.extend_from_slice(&terminal());
    let s = walk_device_path(&b).unwrap();
    assert_eq!(s.labels, vec!["\\EFI\\BOOT\\grubx64.efi".to_string()]);
    assert_eq!(
        s.final_media_file,
        Some("\\EFI\\BOOT\\grubx64.efi".to_string())
    );
}

#[test]
fn last_media_file_wins() {
    let mut b = node(0x04, 0x04, &utf16z("\\first.efi"));
    b.extend_from_slice(&node(0x04, 0x04, &utf16z("\\second.efi")));
    b.extend_from_slice(&terminal());
    let s = walk_device_path(&b).unwrap();
    assert_eq!(s.final_media_file, Some("\\second.efi".to_string()));
    assert_eq!(
        s.labels,
        vec!["\\first.efi".to_string(), "\\second.efi".to_string()]
    );
}

#[test]
fn media_and_bios_labels() {
    let mut b = node(0x04, 0x02, &[]);
    b.extend_from_slice(&node(0x04, 0x06, &[]));
    b.extend_from_slice(&node(0x04, 0x07, &[]));
    b.extend_from_slice(&node(0x05, 0x01, &[]));
    b.extend_from_slice(&terminal());
    let s = walk_device_path(&b).unwrap();
    assert_eq!(
        s.labels,
        vec![
            "CD-ROM".to_string(),
            "UEFI PI".to_string(),
            "UEFI PI".to_string(),
            "CSM".to_string()
        ]
    );
}

#[test]
fn unsupported_media_subtype_is_an_error() {
    let mut b = node(0x04, 0x03, &[0; 4]);
    b.extend_from_slice(&terminal());
    assert_eq!(walk_device_path(&b).unwrap_err(), BootError::UnsupportedNode);
}

#[test]
fn unsupported_node_type_is_an_error() {
    // ACPI nodes (type 0x02) are outside the recognized table.
    let mut b = node(0x02, 0x01, &[0; 8]);
    b.extend_from_slice(&terminal());
    assert_eq!(walk_device_path(&b).unwrap_err(), BootError::UnsupportedNode);
}

#[test]
fn terminal_of_one_instance_also_stops() {
    let mut b = node(0x04, 0x01, &[]);
    b.extend_from_slice(&[0x7F, 0x01, 0x04, 0x00]);
    b.extend_from_slice(&node(0x04, 0x02, &[]));
    b.extend_from_slice(&terminal());
    let s = walk_device_path(&b).unwrap();
    assert_eq!(s.labels, vec!["Hard Drive".to_string()]);
}

#[test]
fn region_without_terminal_is_malformed_not_a_loop() {
    let mut b = node(0x04, 0x01, &[]);
    b.extend_from_slice(&node(0x03, 18, &[]));
    assert_eq!(
        walk_device_path(&b).unwrap_err(),
        BootError::MalformedNodeLength
    );
}

#[test]
fn empty_region_is_malformed() {
    let b: Vec<u8> = Vec::new();
    assert_eq!(
        walk_device_path(&b).unwrap_err(),
        BootError::MalformedNodeLength
    );
}

#[test]
fn zero_length_node_is_malformed_not_a_loop() {
    let b = vec![0x04, 0x01, 0x00, 0x00, 0x7F, 0xFF, 0x04, 0x00];
    assert_eq!(
        walk_device_path(&b).unwrap_err(),
        BootError::MalformedNodeLength
    );
}
