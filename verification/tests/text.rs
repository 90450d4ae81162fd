use bootmgr::text::char16_to_string;

fn utf16(s: &str) -> Vec<u8> {
    let mut out = Vec::new();
    for u in s.encode_utf16() {
        out.push((u & 0xff) as u8);
        out.push((u >> 8) as u8);
    }
    out
}

#[test]
fn ascii_text_decodes_verbatim() {
    let mut buf = utf16("Linux");
    buf.push(0);
    buf.push(0);
    let (s, consumed) = char16_to_string(&buf);
    assert_eq!(s, "Linux");
    assert_eq!(consumed, 12);
}

#[test]
fn bytes_after_terminator_are_ignored() {
    let mut buf = utf16("Hi");
    buf.push(0);
    buf.push(0);
    buf.extend_from_slice(&[0x41, 0x00, 0x42, 0x00]);
    let (s, consumed) = char16_to_string(&buf);
    assert_eq!(s, "Hi");
    assert_eq!(consumed, 6);
}

#[test]
fn non_ascii_unit_becomes_space() {
    // 'é' is U+00E9: one unit, not ASCII.
    let mut buf = utf16("aéb");
    buf.push(0);
    buf.push(0);
    let (s, _) = char16_to_string(&buf);
    assert_eq!(s, "a b");
}

#[test]
fn surrogate_pair_becomes_one_space() {
    // U+1F600 encodes as a surrogate pair: two units, one space.
    let mut buf = utf16("a\u{1F600}b");
    buf.push(0);
    buf.push(0);
    let (s, _) = char16_to_string(&buf);
    assert_eq!(s, "a b");
}

#[test]
fn unpaired_surrogate_becomes_space() {
    // A high surrogate unit followed by an ASCII unit.
    let buf = vec![0x00, 0xD8, 0x41, 0x00, 0x00, 0x00];
    let (s, consumed) = char16_to_string(&buf);
    assert_eq!(s, " A");
    assert_eq!(consumed, 6);
}

#[test]
fn unterminated_even_buffer_consumes_past_end() {
    let buf = utf16("AB");
    let (s, consumed) = char16_to_string(&buf);
    assert_eq!(s, "AB");
    assert_eq!(consumed, 6);
}

#[test]
fn odd_trailing_byte_is_not_a_unit() {
    let buf = vec![0x41, 0x00, 0x42];
    let (s, consumed) = char16_to_string(&buf);
    assert_eq!(s, "A");
    assert_eq!(consumed, 4);
}

#[test]
fn empty_buffer_decodes_empty() {
    let buf: Vec<u8> = Vec::new();
    let (s, consumed) = char16_to_string(&buf);
    assert_eq!(s, "");
    assert_eq!(consumed, 2);
}
