use bootmgr::error::BootError;
use bootmgr::load_option::{decode_load_option, encode_load_option};

fn utf16z(s: &str) -> Vec<u8> {
    let mut out = Vec::new();
    for u in s.encode_utf16() {
        out.push((u & 0xff) as u8);
        out.push((u >> 8) as u8);
    }
    out.push(0);
    out.push(0);
    out
}

fn blob(attrs: [u8; 4], fpll: u16, desc: &str, path: &[u8], optional: &[u8]) -> Vec<u8> {
    let mut out = Vec::new();
    out.extend_from_slice(&attrs);
    out.push((fpll & 0xff) as u8);
    out.push((fpll >> 8) as u8);
    out.extend_from_slice(&utf16z(desc));
    out.extend_from_slice(path);
    out.extend_from_slice(optional);
    out
}

#[test]
fn splits_a_well_formed_blob() {
    let path = [0x7F, 0xFF, 0x04, 0x00];
    let b = blob([0x00, 0x01, 0x00, 0x00], 4, "Linux", &path, &[0xAA, 0xBB]);
    let lo = decode_load_option(&b).unwrap();
    assert_eq!(lo.attributes, 0x0000_0100);
    assert_eq!(lo.file_path_list_length, 4);
    assert_eq!(lo.description, "Linux");
    assert_eq!(lo.device_path_bytes, path.to_vec());
    assert_eq!(lo.optional_data, vec![0xAA, 0xBB]);
}

#[test]
fn short_header_is_truncated() {
    let b = vec![0x01, 0x00, 0x00, 0x00, 0x04];
    assert_eq!(decode_load_option(&b).unwrap_err(), BootError::TruncatedHeader);
}

#[test]
fn missing_terminator_is_unterminated() {
    let mut b = vec![0, 0, 0, 0, 0, 0];
    b.extend_from_slice(&[0x41, 0x00, 0x42, 0x00]);
    assert_eq!(
        decode_load_option(&b).unwrap_err(),
        BootError::UnterminatedDescription
    );
}

#[test]
fn odd_tail_without_terminator_is_unterminated() {
    let mut b = vec![0, 0, 0, 0, 0, 0];
    b.extend_from_slice(&[0x41, 0x00, 0x42]);
    assert_eq!(
        decode_load_option(&b).unwrap_err(),
        BootError::UnterminatedDescription
    );
}

#[test]
fn oversized_path_list_is_a_size_mismatch() {
    // Declares 32 bytes of device path; only 4 remain after the description.
    let b = blob([0, 0, 0, 0], 32, "X", &[0x7F, 0xFF, 0x04, 0x00], &[]);
    assert_eq!(
        decode_load_option(&b).unwrap_err(),
        BootError::PathListSizeMismatch
    );
}

#[test]
fn empty_description_is_allowed() {
    let b = blob([0, 0, 0, 0], 0, "", &[], &[]);
    let lo = decode_load_option(&b).unwrap();
    assert_eq!(lo.description, "");
    assert_eq!(lo.device_path_bytes, Vec::<u8>::new());
}

#[test]
fn reencoding_recovers_the_length_fields() {
    let path = [0x05, 0x01, 0x08, 0x00, 1, 2, 3, 4, 0x7F, 0xFF, 0x04, 0x00];
    let b = blob([0x07, 0x00, 0x00, 0x00], 12, "Shell", &path, &[9, 9]);
    let lo = decode_load_option(&b).unwrap();
    let e = encode_load_option(&lo);
    assert_eq!(&e[0..6], &b[0..6]);
}

#[test]
fn ascii_blob_round_trips_byte_for_byte() {
    let path = [0x7F, 0xFF, 0x04, 0x00];
    let b = blob([0, 0, 0, 0], 4, "Recovery", &path, &[0x10]);
    let lo = decode_load_option(&b).unwrap();
    assert_eq!(encode_load_option(&lo), b);
}

#[test]
fn encoding_then_decoding_returns_the_same_option() {
    let lo = bootmgr::load_option::LoadOption {
        attributes: 0x0000_0001,
        file_path_list_length: 4,
        description: "Test Entry".to_string(),
        device_path_bytes: vec![0x7F, 0xFF, 0x04, 0x00],
        optional_data: vec![1, 2, 3],
    };
    let encoded = encode_load_option(&lo);
    let back = decode_load_option(&encoded).unwrap();
    assert_eq!(back.attributes, lo.attributes);
    assert_eq!(back.file_path_list_length, lo.file_path_list_length);
    assert_eq!(back.description, lo.description);
    assert_eq!(back.device_path_bytes, lo.device_path_bytes);
    assert_eq!(back.optional_data, lo.optional_data);
}
