use tlsboot::asn1::ASN1Constructed;
use tlsboot::x509::{build_tbs, der_integer_content, RsaPublicBytes};

/// Number of octets a unit spends on its tag and length field.
fn header_len(bytes: &[u8]) -> usize {
    if bytes[1] < 0x80 {
        2
    } else {
        2 + (bytes[1] & 0x7f) as usize
    }
}

/// Builds a tag-length-value unit for contents short enough to use the
/// short length form.
fn short_tlv(tag: u8, contents: &[u8]) -> Vec<u8> {
    assert!(contents.len() < 0x80);
    let mut out = vec![tag, contents.len() as u8];
    out.extend_from_slice(contents);
    out
}

#[test]
fn integer_content_applies_sign_rule() {
    // high bit set: a zero octet is prepended
    assert_eq!(der_integer_content(&[0x80]), vec![0x00, 0x80]);
    assert_eq!(der_integer_content(&[0xff, 0x01]), vec![0x00, 0xff, 0x01]);
    // high bit clear: the magnitude stands alone
    assert_eq!(der_integer_content(&[0x7f]), vec![0x7f]);
    assert_eq!(der_integer_content(&[0x01, 0x00, 0x01]), vec![0x01, 0x00, 0x01]);
}

#[test]
fn integer_content_strips_leading_zeros() {
    assert_eq!(der_integer_content(&[0x00, 0x00, 0x05]), vec![0x05]);
    assert_eq!(der_integer_content(&[0x00, 0x80]), vec![0x00, 0x80]);
    assert_eq!(der_integer_content(&[0x00]), vec![0x00]);
    assert_eq!(der_integer_content(&[0x00, 0x00]), vec![0x00]);
    assert_eq!(der_integer_content(&[]), vec![0x00]);
}

#[test]
fn common_name_has_fixed_shape() {
    let cn = ASN1Constructed::new_cn("x").unwrap();
    let attr = [short_tlv(0x06, &[0x55, 0x04, 0x03]), short_tlv(0x0c, b"x")].concat();
    let expected = short_tlv(0x30, &short_tlv(0x31, &short_tlv(0x30, &attr)));
    assert_eq!(cn.get_bytes().unwrap(), expected);
}

#[test]
fn validity_window_formats_utctime() {
    // start at the Unix epoch, one week long
    let v = ASN1Constructed::new_validity_from(0, 1).unwrap();
    let expected = short_tlv(
        0x30,
        &[short_tlv(0x17, b"700101000000Z"), short_tlv(0x17, b"700108000000Z")].concat(),
    );
    assert_eq!(v.get_bytes().unwrap(), expected);
}

#[test]
fn validity_window_from_clock_spans_requested_weeks() {
    let v = ASN1Constructed::new_validity(2).unwrap();
    let bytes = v.get_bytes().unwrap();
    assert_eq!(bytes[0], 0x30);
    assert_eq!(bytes[1], 30);
    assert_eq!(&bytes[2..4], &[0x17, 0x0d]);
    assert_eq!(&bytes[17..19], &[0x17, 0x0d]);
    let not_before = std::str::from_utf8(&bytes[4..17]).unwrap();
    let not_after = std::str::from_utf8(&bytes[19..32]).unwrap();
    let parse = |s: &str| {
        chrono::NaiveDateTime::parse_from_str(s, "%y%m%d%H%M%SZ")
            .unwrap()
            .and_utc()
            .timestamp()
    };
    assert_eq!(parse(not_after) - parse(not_before), 2 * 604800);
}

#[test]
fn validity_window_rejects_out_of_range_start() {
    assert!(ASN1Constructed::new_validity_from(-1, 1).is_err());
    assert!(ASN1Constructed::new_validity_from(200_000_000_000, 1).is_err());
    assert!(ASN1Constructed::new_validity_from(99_999_999_999, 1).is_err());
}

#[test]
fn subject_key_info_has_fixed_shape() {
    let key = RsaPublicBytes { n: vec![0xc3, 0x07], e: vec![0x01, 0x00, 0x01] };
    let spki = ASN1Constructed::new_subject_key_rsa(&key).unwrap();

    let rsa_key = [short_tlv(0x02, &[0x00, 0xc3, 0x07]), short_tlv(0x02, &[0x01, 0x00, 0x01])]
        .concat();
    let alg = short_tlv(
        0x30,
        &[0x06, 0x09, 0x2a, 0x86, 0x48, 0x86, 0xf7, 0x0d, 0x01, 0x01, 0x01, 0x05, 0x00],
    );
    let mut bits = vec![0x00];
    bits.extend_from_slice(&short_tlv(0x30, &rsa_key));
    let mut expected_content = alg;
    expected_content.push(0x03);
    expected_content.push(bits.len() as u8);
    expected_content.extend_from_slice(&bits);
    assert_eq!(spki.get_bytes().unwrap(), short_tlv(0x30, &expected_content));
}

#[test]
fn tbs_fields_stand_in_mandated_order() {
    let key = RsaPublicBytes { n: vec![0xc3, 0x07], e: vec![0x01, 0x00, 0x01] };
    let sigalg = [0x06, 0x09, 0x2a, 0x86, 0x48, 0x86, 0xf7, 0x0d, 0x01, 0x01, 0x0b, 0x05, 0x00];
    let serial = [0x02, 0x11, 0x22, 0x33, 0x44, 0x55, 0x66, 0x77, 0x88];
    let tbs = build_tbs("issuer", "subject", &serial, 0, 1, &key, &sigalg).unwrap();
    let bytes = tbs.get_bytes().unwrap();

    assert_eq!(bytes[0], 0x30);
    let content = &bytes[header_len(&bytes)..];
    // the [0] explicit version unit announcing v3 comes first
    assert_eq!(&content[0..5], &[0xa0, 0x03, 0x02, 0x01, 0x02]);
    // then the serial INTEGER, unchanged since its high bit is clear
    assert_eq!(&content[5..7], &[0x02, 0x09]);
    assert_eq!(&content[7..16], &serial);
    // then the signature AlgorithmIdentifier
    assert_eq!(&content[16..18], &[0x30, 0x0d]);
    assert_eq!(&content[18..31], &sigalg);
    // the [3] explicit extensions unit holding an empty SEQUENCE ends it
    assert_eq!(&bytes[bytes.len() - 4..], &[0xa3, 0x02, 0x30, 0x00]);
}

#[test]
fn tbs_serial_gets_sign_corrected() {
    let key = RsaPublicBytes { n: vec![0xc3, 0x07], e: vec![0x01, 0x00, 0x01] };
    let sigalg = [0x06, 0x09, 0x2a, 0x86, 0x48, 0x86, 0xf7, 0x0d, 0x01, 0x01, 0x0b, 0x05, 0x00];
    let serial = [0xfe, 0x11, 0x22, 0x33, 0x44, 0x55, 0x66, 0x77, 0x88];
    let tbs = build_tbs("issuer", "subject", &serial, 0, 1, &key, &sigalg).unwrap();
    let bytes = tbs.get_bytes().unwrap();
    let content = &bytes[header_len(&bytes)..];
    // the INTEGER grows to ten octets, led by the sign-correcting zero
    assert_eq!(&content[5..8], &[0x02, 0x0a, 0x00]);
    assert_eq!(&content[8..17], &serial);
}
