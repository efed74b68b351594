use tlsboot::pem::to_pem;

/// The Base64 body of a PEM text: everything between the marker lines,
/// with the line breaks removed.
fn pem_body(pem: &str) -> String {
    pem.lines().filter(|line| !line.starts_with("-----")).collect()
}

#[test]
fn pem_round_trips_der_bytes() {
    for size in [0usize, 1, 2, 3, 47, 48, 49, 100, 192, 300] {
        let der: Vec<u8> = (0..size).map(|i| (i * 7 + 3) as u8).collect();
        let pem = to_pem(&der, b"CERTIFICATE").unwrap();
        let text = String::from_utf8(pem).unwrap();
        assert!(text.starts_with("-----BEGIN CERTIFICATE-----\n"));
        assert!(text.ends_with("-----END CERTIFICATE-----\n"));
        let decoded = base64::decode(pem_body(&text)).unwrap();
        assert_eq!(decoded, der, "PEM round trip failed for {size} bytes");
    }
}

#[test]
fn pem_lines_are_at_most_64_characters() {
    let der: Vec<u8> = (0..1000u32).map(|i| (i % 251) as u8).collect();
    let pem = to_pem(&der, b"CERTIFICATE").unwrap();
    let text = String::from_utf8(pem).unwrap();
    let mut saw_body = false;
    for line in text.lines() {
        assert!(line.len() <= 64 || line.starts_with("-----"));
        if !line.starts_with("-----") {
            assert!(!line.is_empty());
            saw_body = true;
        }
    }
    assert!(saw_body);
}

#[test]
fn pem_body_is_wrapped_every_64_characters() {
    // 48 input bytes make exactly 64 Base64 characters: one full line
    let der: Vec<u8> = vec![0xab; 48];
    let pem = to_pem(&der, b"CERTIFICATE").unwrap();
    let text = String::from_utf8(pem).unwrap();
    let lines: Vec<&str> = text.lines().collect();
    assert_eq!(lines.len(), 3);
    assert_eq!(lines[1].len(), 64);

    // 49 input bytes spill into a second body line
    let der: Vec<u8> = vec![0xab; 49];
    let pem = to_pem(&der, b"CERTIFICATE").unwrap();
    let text = String::from_utf8(pem).unwrap();
    let lines: Vec<&str> = text.lines().collect();
    assert_eq!(lines.len(), 4);
    assert_eq!(lines[1].len(), 64);
    assert_eq!(lines[2].len(), 4);
}

#[test]
fn pem_ends_with_exactly_one_newline() {
    for size in [0usize, 5, 48, 64] {
        let der: Vec<u8> = vec![0x11; size];
        let pem = to_pem(&der, b"TEST LABEL").unwrap();
        let text = String::from_utf8(pem).unwrap();
        assert!(text.ends_with("-----END TEST LABEL-----\n"));
        assert!(!text.ends_with("\n\n"));
    }
}

#[test]
fn pem_empty_body_keeps_markers_adjacent() {
    let pem = to_pem(&[], b"CERTIFICATE").unwrap();
    let text = String::from_utf8(pem).unwrap();
    assert_eq!(text, "-----BEGIN CERTIFICATE-----\n-----END CERTIFICATE-----\n");
}
