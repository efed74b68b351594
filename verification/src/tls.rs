//! Self-signed certificate generation and the bootstrap decision.
//!
//! [`create_key`] runs the whole pipeline: generate an RSA key pair,
//! assemble the to-be-signed certificate body, sign it with
//! RSA-PSS/SHA-256, wrap body and signature into the outer certificate
//! SEQUENCE and render both artifacts as PEM.  [`bootstrap_action`] is
//! the coordinator's one decision: generate exactly when no key file
//! exists yet.

use vstd::prelude::*;
use vstd::string::StringSliceAdditionalSpecFns;

use crate::asn1::{
    contents_of, der_content, encodable, lemma_len_field_len, tlv, ASN1Constructed,
};
use crate::errors::TlsError;
use crate::keys::{
    private_key_begin, rsa_exponent_be, rsa_generate, rsa_modulus_be, rsa_private_key_pem,
    rsa_to_public, sign_pss_sha256,
};
use crate::pem::{base64_of, pem_strip, pem_view, to_pem};
use crate::x509::{
    create_x509_tbs, tbs_content, RsaPublicBytes, UTCTIME_TS_LIMIT, WEEK_SECONDS,
};

verus! {

/// The generated TLS material: the private key and the certificate,
/// both as PEM text bytes.
pub struct TlsMaterial {
    pub key_pem: Vec<u8>,
    pub cert_pem: Vec<u8>,
}

/// The AlgorithmIdentifier content this system declares for its
/// signatures: OID 1.2.840.113549.1.1.11 (sha256WithRSAEncryption) with
/// a NULL parameter, as encoded units.
pub open spec fn sigalg_sha256_rsa() -> Seq<u8> {
    seq![0x06u8, 0x09, 0x2a, 0x86, 0x48, 0x86, 0xf7, 0x0d, 0x01, 0x01, 0x0b, 0x05, 0x00]
}

/// The PEM label `CERTIFICATE`.
pub open spec fn cert_label() -> Seq<u8> {
    seq![0x43u8, 0x45, 0x52, 0x54, 0x49, 0x46, 0x49, 0x43, 0x41, 0x54, 0x45]
}

/// The DER bytes of a complete self-signed certificate over the given
/// serial magnitude, validity window, key parts and signature bytes:
/// `SEQUENCE { tbsCertificate, signatureAlgorithm, signatureValue }`.
pub open spec fn cert_der(
    serial: Seq<u8>,
    start: int,
    expire: int,
    n: Seq<u8>,
    e: Seq<u8>,
    sig: Seq<u8>,
) -> Seq<u8> {
    tlv(
        0x30,
        tlv(
            0x30,
            tbs_content(
                serial,
                sigalg_sha256_rsa(),
                ("issuer").spec_bytes(),
                start,
                expire,
                ("subject").spec_bytes(),
                n,
                e,
            ),
        ) + tlv(0x30, sigalg_sha256_rsa()) + tlv(0x03, der_content(0x03, sig)),
    )
}

/// Whether every piece of the outer certificate SEQUENCE stays within
/// the encodable length bound.
pub open spec fn package_ok_for(
    tbs_tag: u8,
    tbs_content_b: Seq<u8>,
    sigalg: Seq<u8>,
    sig: Seq<u8>,
) -> bool {
    &&& encodable(tbs_content_b.len())
    &&& encodable(sigalg.len())
    &&& encodable(der_content(0x03, sig).len())
    &&& encodable(
        (tlv(tbs_tag, tbs_content_b) + tlv(0x30, sigalg) + tlv(0x03, der_content(0x03, sig))).len(),
    )
}

/// Wraps a to-be-signed body, the signature algorithm identifier and the
/// signature bytes into the outer certificate SEQUENCE:
/// `SEQUENCE { tbsCertificate, signatureAlgorithm, signatureValue }`,
/// the signature as a BIT STRING.
pub fn package(tbs: &ASN1Constructed, sigalg: &[u8], signature: &[u8]) -> (r: Result<
    Vec<u8>,
    TlsError,
>)
    ensures
        r is Ok <==> package_ok_for(tbs.tag, contents_of(tbs.children@), sigalg@, signature@),
        r matches Ok(v) ==> v@ == tlv(
            0x30,
            tlv(tbs.tag, contents_of(tbs.children@)) + tlv(0x30, sigalg@) + tlv(
                0x03,
                der_content(0x03, signature@),
            ),
        ),
        r matches Err(e) ==> e == TlsError::Encode,
{
    let cert = ASN1Constructed::new(0x30).add_object(tbs)?.add_bytes(0x30, sigalg)?.add_bytes(
        0x03,
        signature,
    )?;
    assert(contents_of(cert.children@) =~= tlv(tbs.tag, contents_of(tbs.children@)) + tlv(
        0x30,
        sigalg@,
    ) + tlv(0x03, der_content(0x03, signature@)));
    cert.get_bytes()
}

/// Generates a fresh 2048-bit RSA key pair and a self-signed X.509
/// certificate over it, valid for `validity_weeks` weeks from now, with
/// the fixed placeholder common names `issuer` and `subject`.  On
/// success the certificate PEM is exactly the PEM framing of the
/// assembled DER bytes, for whatever serial number, clock reading, key
/// parts and signature the providers produced, and the key PEM opens
/// with the PKCS#8 BEGIN marker.
pub fn create_key(validity_weeks: u32) -> (r: Result<TlsMaterial, TlsError>)
    ensures
        r matches Ok(m) ==> m.key_pem@.len() > 27 && m.key_pem@.subrange(0, 27)
            == private_key_begin(),
        r matches Ok(m) ==> exists|
            serial: Seq<u8>,
            start: int,
            expire: int,
            n: Seq<u8>,
            e: Seq<u8>,
            sig: Seq<u8>,
        |
            {
                &&& serial.len() == 9
                &&& 0 <= start
                &&& expire == start + (validity_weeks as int) * (WEEK_SECONDS as int)
                &&& expire <= UTCTIME_TS_LIMIT
                &&& m.cert_pem@ == pem_view(
                    cert_label(),
                    base64_of(#[trigger] cert_der(serial, start, expire, n, e, sig)),
                )
                &&& pem_strip(m.cert_pem@, cert_label()) == base64_of(
                    cert_der(serial, start, expire, n, e, sig),
                )
            },
        r matches Err(e) ==> e == TlsError::KeyGen || e == TlsError::Sign || e
            == TlsError::Encode,
{
    let kprv = rsa_generate(2048)?;
    let key_pem = rsa_private_key_pem(&kprv)?;
    let kpub = rsa_to_public(&kprv);
    let pubkey = RsaPublicBytes { n: rsa_modulus_be(&kpub), e: rsa_exponent_be(&kpub) };

    let sigalg: [u8; 13] = [
        0x06,
        0x09,
        0x2a,
        0x86,
        0x48,
        0x86,
        0xf7,
        0x0d,
        0x01,
        0x01,
        0x0b,
        0x05,
        0x00,
    ];
    assert(sigalg@ =~= sigalg_sha256_rsa());
    let tbs = create_x509_tbs("issuer", "subject", validity_weeks, &pubkey, &sigalg)?;
    let tbs_bytes = tbs.get_bytes()?;
    let signature = sign_pss_sha256(&kprv, tbs_bytes.as_slice())?;

    let certdata = package(&tbs, &sigalg, signature.as_slice())?;

    let ghost (serial, start, expire) = choose|serial: Seq<u8>, start: int, expire: int|
        serial.len() == 9 && 0 <= start && expire == start + (validity_weeks as int) * (
        WEEK_SECONDS as int) && expire <= UTCTIME_TS_LIMIT && contents_of(tbs.children@)
            == #[trigger] tbs_content(
            serial,
            sigalg@,
            ("issuer").spec_bytes(),
            start,
            expire,
            ("subject").spec_bytes(),
            pubkey.n@,
            pubkey.e@,
        );
    proof {
        assert(certdata@ =~= cert_der(serial, start, expire, pubkey.n@, pubkey.e@, signature@));
        lemma_len_field_len(
            (tlv(0x30, contents_of(tbs.children@)) + tlv(0x30, sigalg@) + tlv(
                0x03,
                der_content(0x03, signature@),
            )).len(),
        );
    }
    let cert_pem = to_pem(
        certdata.as_slice(),
        &[0x43, 0x45, 0x52, 0x54, 0x49, 0x46, 0x49, 0x43, 0x41, 0x54, 0x45],
    )?;
    proof {
        assert(seq![
            0x43u8,
            0x45,
            0x52,
            0x54,
            0x49,
            0x46,
            0x49,
            0x43,
            0x41,
            0x54,
            0x45,
        ] =~= cert_label());
    }
    Ok(TlsMaterial { key_pem, cert_pem })
}

/// The bootstrap coordinator's one decision: fresh TLS material is
/// generated exactly when the key file does not exist yet, so a run
/// that finds the file a previous run wrote generates nothing.
pub fn bootstrap_action(key_exists: bool) -> (generate: bool)
    ensures
        generate == !key_exists,
{
    !key_exists
}

} // verus!
