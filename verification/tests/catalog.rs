use bootmgr::catalog::{build_catalog, decode_boot_entry, eq_ignore_ascii_case, is_default_loader};
use bootmgr::error::BootError;

fn utf16z(s: &str) -> Vec<u8> {
    let mut out = Vec::new();
    for u in s.encode_utf16() {
        out.push((u & 0xff) as u8);
        out.push((u >> 8) as u8);
    }
    out.push(0);
    out.push(0);
    out
}

fn node(t: u8, st: u8, payload: &[u8]) -> Vec<u8> {
    let len = (payload.len() + 4) as u16;
    let mut out = vec![t, st, (len & 0xff) as u8, (len >> 8) as u8];
    out.extend_from_slice(payload);
    out
}

fn blob(attrs: [u8; 4], desc: &str, path: &[u8]) -> Vec<u8> {
    let mut out = Vec::new();
    out.extend_from_slice(&attrs);
    let fpll = path.len() as u16;
    out.push((fpll & 0xff) as u8);
    out.push((fpll >> 8) as u8);
    out.extend_from_slice(&utf16z(desc));
    out.extend_from_slice(path);
    out
}

fn hard_drive_blob(desc: &str) -> Vec<u8> {
    let mut path = node(0x04, 0x01, &[0; 12]);
    path.extend_from_slice(&[0x7F, 0xFF, 0x04, 0x00]);
    blob([0x00, 0x01, 0x00, 0x00], desc, &path)
}

fn loader_blob(desc: &str, file: &str) -> Vec<u8> {
    let mut path = node(0x04, 0x04, &utf16z(file));
    path.extend_from_slice(&[0x7F, 0xFF, 0x04, 0x00]);
    blob([0x00, 0x01, 0x00, 0x00], desc, &path)
}

#[test]
fn scenario_hard_drive_entry() {
    // A `Boot0001` variable: attributes 00 01 00 00, a hard-drive media
    // node then a terminal node, description "Linux".
    let b = hard_drive_blob("Linux");
    assert_eq!(b[4], 0x14);
    assert_eq!(b[5], 0x00);
    let (entry, final_file) = decode_boot_entry("Boot0001", &b).unwrap();
    assert_eq!(entry.id, 1);
    assert_eq!(entry.raw_suffix, "0001");
    assert_eq!(entry.description, "Linux");
    assert_eq!(entry.path_summary, vec!["Hard Drive".to_string()]);
    assert_eq!(final_file, None);
}

#[test]
fn invalid_names_yield_no_entry() {
    let b = hard_drive_blob("Linux");
    for name in [
        "Boot001", "Boot00011", "boot0001", "Boot00G1", "Boot000g", "BootOrder", "Next0001", "",
        "Boot", "Boot 001",
    ] {
        assert_eq!(
            decode_boot_entry(name, &b).unwrap_err(),
            BootError::InvalidVariableName,
            "name {:?}",
            name
        );
    }
    let pairs = vec![("BootOrder".to_string(), b)];
    assert!(build_catalog(&pairs, false).is_empty());
}

#[test]
fn default_loader_is_dropped_under_the_policy() {
    let pairs = vec![
        ("Boot0001".to_string(), hard_drive_blob("Linux")),
        (
            "Boot0002".to_string(),
            loader_blob("Fallback", "\\EFI\\BOOT\\BOOTX64.EFI"),
        ),
    ];
    let filtered = build_catalog(&pairs, true);
    assert_eq!(filtered.len(), 1);
    assert_eq!(filtered[0].id, 1);

    let unfiltered = build_catalog(&pairs, false);
    assert_eq!(unfiltered.len(), 2);
    assert_eq!(
        unfiltered[1].path_summary,
        vec!["\\EFI\\BOOT\\BOOTX64.EFI".to_string()]
    );
}

#[test]
fn default_loader_filter_ignores_case_and_spares_others() {
    let pairs = vec![
        (
            "Boot0001".to_string(),
            loader_blob("lowercase fallback", "\\efi\\boot\\bootx64.efi"),
        ),
        (
            "Boot0002".to_string(),
            loader_blob("arm fallback", "\\EFI\\BOOT\\BOOTAA64.EFI"),
        ),
        (
            "Boot0003".to_string(),
            loader_blob("grub", "\\EFI\\BOOT\\grubx64.efi"),
        ),
    ];
    let filtered = build_catalog(&pairs, true);
    assert_eq!(filtered.len(), 1);
    assert_eq!(filtered[0].id, 3);
}

#[test]
fn catalog_is_sorted_by_id_and_keeps_all_decodable_entries() {
    let pairs = vec![
        ("Boot0010".to_string(), hard_drive_blob("c")),
        ("Boot0001".to_string(), hard_drive_blob("a")),
        ("BootFFFF".to_string(), hard_drive_blob("last")),
        ("Boot0002".to_string(), hard_drive_blob("b")),
    ];
    let catalog = build_catalog(&pairs, false);
    let ids: Vec<u16> = catalog.iter().map(|e| e.id).collect();
    assert_eq!(ids, vec![1, 2, 16, 65535]);
    assert_eq!(catalog[2].description, "c");
    assert_eq!(catalog[3].raw_suffix, "FFFF");
}

#[test]
fn malformed_variable_never_aborts_the_scan() {
    // The middle variable declares a path-list length far past its bytes.
    let mut oversized = hard_drive_blob("broken");
    oversized[4] = 0xFF;
    assert_eq!(
        decode_boot_entry("Boot0002", &oversized).unwrap_err(),
        BootError::PathListSizeMismatch
    );
    let pairs = vec![
        ("Boot0003".to_string(), hard_drive_blob("good")),
        ("Boot0002".to_string(), oversized),
        ("Boot0001".to_string(), hard_drive_blob("also good")),
    ];
    let catalog = build_catalog(&pairs, false);
    let ids: Vec<u16> = catalog.iter().map(|e| e.id).collect();
    assert_eq!(ids, vec![1, 3]);
}

#[test]
fn scanning_twice_yields_identical_catalogs() {
    let pairs = vec![
        ("Boot0002".to_string(), hard_drive_blob("two")),
        ("Boot0001".to_string(), loader_blob("one", "\\a.efi")),
        ("garbage".to_string(), vec![1, 2, 3]),
    ];
    let first = build_catalog(&pairs, true);
    let second = build_catalog(&pairs, true);
    assert_eq!(first, second);
}

#[test]
fn case_insensitive_compare() {
    assert!(eq_ignore_ascii_case("BootX64.EFI", "bootx64.efi"));
    assert!(!eq_ignore_ascii_case("BootX64.EFI", "bootx64.ef"));
    assert!(!eq_ignore_ascii_case("a", "b"));
    assert!(is_default_loader("\\efi\\boot\\BOOTAA64.efi"));
    assert!(!is_default_loader("\\EFI\\BOOT\\grubx64.efi"));
}

#[test]
fn display_line_shows_suffix_description_and_path() {
    let (entry, _) = decode_boot_entry("Boot0001", &hard_drive_blob("Linux")).unwrap();
    assert_eq!(entry.display_line(), "Boot0001: Linux, at: 'Hard Drive'");
}

#[test]
fn display_line_joins_labels_with_spaces() {
    let mut path = node(0x03, 18, &[]);
    path.extend_from_slice(&node(0x04, 0x01, &[]));
    path.extend_from_slice(&[0x7F, 0xFF, 0x04, 0x00]);
    let b = blob([0, 0, 0, 0], "Disk", &path);
    let (entry, _) = decode_boot_entry("Boot00AB", &b).unwrap();
    assert_eq!(entry.display_line(), "Boot00AB: Disk, at: 'SATA Hard Drive'");
}

#[test]
fn display_line_with_an_empty_path() {
    let b = blob([0, 0, 0, 0], "Bare", &[0x7F, 0xFF, 0x04, 0x00]);
    let (entry, _) = decode_boot_entry("Boot0004", &b).unwrap();
    assert_eq!(entry.display_line(), "Boot0004: Bare, at: ''");
}
