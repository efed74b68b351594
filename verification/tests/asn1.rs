use tlsboot::asn1::{asn1_push_len, ASN1Constructed, ASN1Primitive};
use tlsboot::errors::TlsError;

/// Reads back a length field: the decoded value and the octets used.
fn decode_len(bytes: &[u8]) -> Option<(u64, usize)> {
    let first = *bytes.first()?;
    if first < 0x80 {
        Some((first as u64, 1))
    } else {
        let k = (first & 0x7f) as usize;
        if k == 0 || bytes.len() < 1 + k {
            return None;
        }
        let mut value: u64 = 0;
        for i in 0..k {
            value = (value << 8) | bytes[1 + i] as u64;
        }
        Some((value, 1 + k))
    }
}

#[test]
fn length_field_round_trips() {
    let cases: [usize; 8] = [0, 1, 0x7f, 0x80, 0xff, 0x100, 0xffff, 0x10000];
    let expected_octets: [usize; 8] = [1, 1, 1, 2, 2, 3, 3, 4];
    for (&len, &octets) in cases.iter().zip(expected_octets.iter()) {
        let mut bytes: Vec<u8> = Vec::new();
        asn1_push_len(&mut bytes, len).unwrap();
        let (value, used) = decode_len(&bytes).unwrap();
        assert_eq!(value, len as u64, "length {len:#x} did not round-trip");
        assert_eq!(used, bytes.len(), "length {len:#x} left spare octets");
        assert_eq!(used, octets, "length {len:#x} used a non-minimal form");
    }
}

#[test]
fn length_field_exact_bytes() {
    let mut bytes: Vec<u8> = Vec::new();
    asn1_push_len(&mut bytes, 0x45).unwrap();
    assert_eq!(bytes, vec![0x45]);

    let mut bytes: Vec<u8> = Vec::new();
    asn1_push_len(&mut bytes, 0x80).unwrap();
    assert_eq!(bytes, vec![0x81, 0x80]);

    let mut bytes: Vec<u8> = Vec::new();
    asn1_push_len(&mut bytes, 0x1234).unwrap();
    assert_eq!(bytes, vec![0x82, 0x12, 0x34]);

    let mut bytes: Vec<u8> = Vec::new();
    asn1_push_len(&mut bytes, 0x0102_0304).unwrap();
    assert_eq!(bytes, vec![0x84, 0x01, 0x02, 0x03, 0x04]);
}

#[test]
fn oversized_length_rejected() {
    let mut bytes: Vec<u8> = vec![0x30];
    let r = asn1_push_len(&mut bytes, 1usize << 32);
    assert_eq!(r, Err(TlsError::Encode));
    assert_eq!(bytes, vec![0x30], "a rejected length must leave the buffer alone");

    let r = asn1_push_len(&mut bytes, (1usize << 32) + 7);
    assert_eq!(r, Err(TlsError::Encode));

    let mut bytes: Vec<u8> = Vec::new();
    asn1_push_len(&mut bytes, (1usize << 32) - 1).unwrap();
    assert_eq!(bytes, vec![0x84, 0xff, 0xff, 0xff, 0xff]);
}

#[test]
fn primitive_encodes_tag_length_value() {
    let p = ASN1Primitive::new(0x02, &[0x05]);
    assert_eq!(p.get_len().unwrap(), 1);
    assert_eq!(p.get_bytes().unwrap(), vec![0x02, 0x01, 0x05]);

    let empty = ASN1Primitive::new(0x05, &[]);
    assert_eq!(empty.get_bytes().unwrap(), vec![0x05, 0x00]);
}

#[test]
fn bit_string_content_starts_with_zero_octet() {
    let p = ASN1Primitive::new(0x03, &[0xff, 0x01]);
    assert_eq!(p.get_len().unwrap(), 3);
    let bytes = p.get_bytes().unwrap();
    assert_eq!(bytes, vec![0x03, 0x03, 0x00, 0xff, 0x01]);
    // content begins with the unused-bits octet, always zero here
    assert_eq!(bytes[2], 0x00);

    let empty = ASN1Primitive::new(0x03, &[]);
    assert_eq!(empty.get_bytes().unwrap(), vec![0x03, 0x01, 0x00]);
}

#[test]
fn constructed_concatenates_children() {
    let seq = ASN1Constructed::new(0x30)
        .add_bytes(0x02, &[0x01])
        .unwrap()
        .add_bytes(0x02, &[0x02, 0x03])
        .unwrap();
    assert_eq!(seq.get_len().unwrap(), 7);
    assert_eq!(seq.get_bytes().unwrap(), vec![0x30, 0x07, 0x02, 0x01, 0x01, 0x02, 0x02, 0x02, 0x03]);
}

#[test]
fn constructed_nests_objects() {
    let inner = ASN1Constructed::new(0x30).add_bytes(0x02, &[0x2a]).unwrap();
    let outer = ASN1Constructed::new(0x31).add_object(&inner).unwrap();
    assert_eq!(outer.get_bytes().unwrap(), vec![0x31, 0x05, 0x30, 0x03, 0x02, 0x01, 0x2a]);

    let empty = ASN1Constructed::new(0x30);
    assert_eq!(empty.get_bytes().unwrap(), vec![0x30, 0x00]);
}
