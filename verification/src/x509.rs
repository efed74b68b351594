//! X.509 certificate structures: names, validity windows, public-key
//! info and the to-be-signed certificate body.
//!
//! Every builder returns a fully encoded [`ASN1Constructed`] unit whose
//! content bytes are pinned down against the spec functions of
//! [`crate::asn1`].

use rand::RngCore;
use vstd::prelude::*;
use vstd::string::StringSliceAdditionalSpecFns;

use crate::asn1::{contents_of, der_content, encodable, tlv, ASN1Constructed};
use crate::errors::TlsError;

verus! {

/// `raw` with its leading zero bytes removed.
pub open spec fn strip_zeros(s: Seq<u8>) -> Seq<u8>
    decreases s.len(),
{
    if s.len() == 0 || s[0] != 0 {
        s
    } else {
        strip_zeros(s.skip(1))
    }
}

/// DER INTEGER content octets for the non-negative integer whose
/// big-endian magnitude is `raw`: the minimal magnitude, with one zero
/// octet prepended whenever the leading magnitude bit is set, so the
/// encoding can never read as negative.
pub open spec fn int_content(raw: Seq<u8>) -> Seq<u8> {
    let m = strip_zeros(raw);
    if m.len() == 0 {
        seq![0u8]
    } else if m[0] >= 0x80 {
        seq![0u8] + m
    } else {
        m
    }
}

proof fn lemma_strip_zeros_skip(s: Seq<u8>, i: int)
    requires
        0 <= i <= s.len(),
        forall|j: int| 0 <= j < i ==> s[j] == 0,
    ensures
        strip_zeros(s) == strip_zeros(s.skip(i)),
    decreases i,
{
    if i > 0 {
        assert(s[0] == 0);
        lemma_strip_zeros_skip(s.skip(1), i - 1);
        assert(s.skip(1).skip(i - 1) =~= s.skip(i));
    } else {
        assert(s.skip(0) =~= s);
    }
}

proof fn lemma_strip_zeros_head(s: Seq<u8>)
    ensures
        strip_zeros(s).len() > 0 ==> strip_zeros(s)[0] != 0,
    decreases s.len(),
{
    if s.len() > 0 && s[0] == 0 {
        lemma_strip_zeros_head(s.skip(1));
    }
}

/// The sign-corrected integer content is canonical: it is never empty,
/// never reads as negative, and carries a leading zero octet only when
/// the next octet's high bit demands it.
pub proof fn lemma_int_content_canonical(raw: Seq<u8>)
    ensures
        int_content(raw).len() >= 1,
        int_content(raw)[0] < 0x80,
        int_content(raw).len() > 1 && int_content(raw)[0] == 0 ==> int_content(raw)[1] >= 0x80,
{
    lemma_strip_zeros_head(raw);
}

/// Builds the DER INTEGER content octets for the big-endian magnitude
/// `raw`, applying the complete sign-correction rule.
pub fn der_integer_content(raw: &[u8]) -> (r: Vec<u8>)
    ensures
        r@ == int_content(raw@),
{
    let mut i: usize = 0;
    while i < raw.len() && raw[i] == 0
        invariant
            i <= raw@.len(),
            forall|j: int| 0 <= j < i ==> raw@[j] == 0,
        decreases raw@.len() - i,
    {
        i = i + 1;
    }
    proof {
        lemma_strip_zeros_skip(raw@, i as int);
    }
    let mut out: Vec<u8> = Vec::new();
    if i == raw.len() {
        out.push(0x00);
        proof {
            assert(raw@.skip(i as int) =~= Seq::<u8>::empty());
            assert(out@ =~= int_content(raw@));
        }
        return out;
    }
    assert(strip_zeros(raw@) == raw@.skip(i as int));
    if raw[i] >= 0x80 {
        out.push(0x00);
    }
    let ghost prefix: Seq<u8> = out@;
    let mut j: usize = i;
    while j < raw.len()
        invariant
            i <= j <= raw@.len(),
            out@ == prefix + raw@.subrange(i as int, j as int),
        decreases raw@.len() - j,
    {
        out.push(raw[j]);
        assert(out@ =~= prefix + raw@.subrange(i as int, j + 1 as int));
        j = j + 1;
    }
    proof {
        assert(raw@.subrange(i as int, raw@.len() as int) =~= raw@.skip(i as int));
        assert(out@ =~= int_content(raw@));
    }
    out
}

/// OID 2.5.4.3 (commonName), as content octets of an OBJECT IDENTIFIER.
pub open spec fn oid_common_name() -> Seq<u8> {
    seq![0x55u8, 0x04, 0x03]
}

/// Content of one common-name attribute: the OID unit followed by the
/// UTF8String unit over the name's UTF-8 bytes.
pub open spec fn cn_attr_content(name_bytes: Seq<u8>) -> Seq<u8> {
    tlv(0x06, oid_common_name()) + tlv(0x0c, name_bytes)
}

/// Content of a Name: a SET holding one attribute SEQUENCE.
pub open spec fn cn_name_content(name_bytes: Seq<u8>) -> Seq<u8> {
    tlv(0x31, tlv(0x30, cn_attr_content(name_bytes)))
}

/// Whether each nesting level of the common-name structure stays within
/// the encodable length bound.
pub open spec fn cn_ok(name_bytes: Seq<u8>) -> bool {
    &&& encodable(name_bytes.len())
    &&& encodable(cn_attr_content(name_bytes).len())
    &&& encodable(tlv(0x30, cn_attr_content(name_bytes)).len())
}

impl ASN1Constructed {
    /// A Name holding a single common-name attribute:
    /// `SEQUENCE { SET { SEQUENCE { OID 2.5.4.3, UTF8String name } } }`.
    /// The name is taken as supplied; no escaping is performed.
    pub fn new_cn(name: &str) -> (r: Result<Self, TlsError>)
        ensures
            r is Ok <==> cn_ok(name.spec_bytes()),
            r matches Ok(v) ==> v.tag == 0x30 && contents_of(v.children@) == cn_name_content(
                name.spec_bytes(),
            ),
            r matches Err(e) ==> e == TlsError::Encode,
    {
        let names = ASN1Constructed::new(0x30).add_bytes(0x06, &[0x55, 0x04, 0x03])?.add_bytes(
            0x0c,
            name.as_bytes(),
        )?;
        assert(contents_of(names.children@) =~= cn_attr_content(name.spec_bytes()));
        let cn = ASN1Constructed::new(0x31).add_object(&names)?;
        assert(contents_of(cn.children@) =~= tlv(0x30, cn_attr_content(name.spec_bytes())));
        let outer = ASN1Constructed::new(0x30).add_object(&cn)?;
        assert(contents_of(outer.children@) =~= cn_name_content(name.spec_bytes()));
        Ok(outer)
    }
}

/// The ASN.1 UTCTime rendering `YYMMDDHHMMSSZ` of a Unix timestamp, as
/// ASCII bytes.  The rendering is a function of the timestamp alone.
pub uninterp spec fn utctime_of(ts: int) -> Seq<u8>;

/// Largest Unix timestamp handed to the UTCTime formatter; far beyond
/// any plausible clock reading yet far below the formatter's own range.
pub const UTCTIME_TS_LIMIT: i64 = 100_000_000_000;

/// Seconds per week.
pub const WEEK_SECONDS: i64 = 604800;

/// Relies on `chrono::DateTime::from_timestamp` and `format("%y%m%d%H%M%SZ")`:
/// thirteen ASCII bytes, two digits for each of year (modulo 100), month,
/// day, hour, minute and second, then `Z`; the timestamp range admitted
/// here is well inside the range the conversion supports.
#[verifier::external_body]
fn utctime_bytes(ts: i64) -> (r: Vec<u8>)
    requires
        0 <= ts <= UTCTIME_TS_LIMIT,
    ensures
        r@ == utctime_of(ts as int),
        r@.len() == 13,
{
    let dt = chrono::DateTime::from_timestamp(ts, 0).unwrap();
    dt.format("%y%m%d%H%M%SZ").to_string().into_bytes()
}

/// Relies on `chrono::Utc::now`: the current Unix timestamp in seconds.
/// Nothing is assumed about the value.
#[verifier::external_body]
fn utc_now() -> i64 {
    chrono::Utc::now().timestamp()
}

/// Content of a validity SEQUENCE: two UTCTime units, not-before then
/// not-after.
pub open spec fn validity_content(start: int, expire: int) -> Seq<u8> {
    tlv(0x17, utctime_of(start)) + tlv(0x17, utctime_of(expire))
}

impl ASN1Constructed {
    /// A validity window starting at the given Unix timestamp and ending
    /// `weeks` weeks later, both rendered as UTCTime.  Rejected exactly
    /// when the window leaves the supported timestamp range.
    pub fn new_validity_from(start_ts: i64, weeks: u32) -> (r: Result<Self, TlsError>)
        ensures
            r is Ok <==> 0 <= start_ts && start_ts + (weeks as int) * (WEEK_SECONDS as int)
                <= UTCTIME_TS_LIMIT,
            r matches Ok(v) ==> v.tag == 0x30 && contents_of(v.children@) == validity_content(
                start_ts as int,
                start_ts + (weeks as int) * (WEEK_SECONDS as int),
            ) && utctime_of(start_ts as int).len() == 13 && utctime_of(
                start_ts + (weeks as int) * (WEEK_SECONDS as int),
            ).len() == 13,
            r matches Err(e) ==> e == TlsError::Encode,
    {
        if start_ts < 0 || start_ts > UTCTIME_TS_LIMIT {
            return Err(TlsError::Encode);
        }
        let dur: i64 = (weeks as i64) * WEEK_SECONDS;
        let expire: i64 = start_ts + dur;
        if expire > UTCTIME_TS_LIMIT {
            return Err(TlsError::Encode);
        }
        let start_bytes = utctime_bytes(start_ts);
        let expire_bytes = utctime_bytes(expire);
        let v = ASN1Constructed::new(0x30).add_bytes(0x17, start_bytes.as_slice())?.add_bytes(
            0x17,
            expire_bytes.as_slice(),
        )?;
        assert(contents_of(v.children@) =~= validity_content(
            start_ts as int,
            start_ts + (weeks as int) * (WEEK_SECONDS as int),
        ));
        Ok(v)
    }

    /// A validity window starting now and ending `weeks` weeks later.
    /// The start is sampled from the system clock, so only the window's
    /// shape is promised, for whatever timestamp the clock returned.
    pub fn new_validity(weeks: u32) -> (r: Result<Self, TlsError>)
        ensures
            r matches Ok(v) ==> v.tag == 0x30 && exists|start: int, expire: int|
                0 <= start && expire == start + (weeks as int) * (WEEK_SECONDS as int) && expire
                    <= UTCTIME_TS_LIMIT && contents_of(v.children@) == #[trigger] validity_content(
                    start,
                    expire,
                ),
            r matches Err(e) ==> e == TlsError::Encode,
    {
        let now = utc_now();
        let r = Self::new_validity_from(now, weeks);
        proof {
            if r is Ok {
                let v = r->Ok_0;
                let expire = now + (weeks as int) * (WEEK_SECONDS as int);
                assert(0 <= now as int && expire == now + (weeks as int) * (WEEK_SECONDS as int)
                    && expire <= UTCTIME_TS_LIMIT && contents_of(v.children@) == validity_content(
                    now as int,
                    expire,
                ));
            }
        }
        r
    }
}

/// An RSA public key as plain values: the big-endian magnitudes of the
/// modulus and the public exponent.
pub struct RsaPublicBytes {
    pub n: Vec<u8>,
    pub e: Vec<u8>,
}

/// Content of the rsaEncryption AlgorithmIdentifier: OID
/// 1.2.840.113549.1.1.1 with a NULL parameter, as encoded units.
pub open spec fn rsa_alg_content() -> Seq<u8> {
    seq![0x06u8, 0x09, 0x2a, 0x86, 0x48, 0x86, 0xf7, 0x0d, 0x01, 0x01, 0x01, 0x05, 0x00]
}

/// Content of the RSAPublicKey SEQUENCE: modulus and exponent INTEGERs.
pub open spec fn rsa_pubkey_content(n: Seq<u8>, e: Seq<u8>) -> Seq<u8> {
    tlv(0x02, int_content(n)) + tlv(0x02, int_content(e))
}

/// Content of a SubjectPublicKeyInfo: the algorithm identifier and a BIT
/// STRING wrapping the RSAPublicKey SEQUENCE.
pub open spec fn spki_content(n: Seq<u8>, e: Seq<u8>) -> Seq<u8> {
    tlv(0x30, rsa_alg_content()) + tlv(
        0x03,
        der_content(0x03, tlv(0x30, rsa_pubkey_content(n, e))),
    )
}

/// Whether each nesting level of the SubjectPublicKeyInfo stays within
/// the encodable length bound.
pub open spec fn spki_ok(n: Seq<u8>, e: Seq<u8>) -> bool {
    &&& encodable(int_content(n).len())
    &&& encodable(int_content(e).len())
    &&& encodable(rsa_pubkey_content(n, e).len())
    &&& encodable(der_content(0x03, tlv(0x30, rsa_pubkey_content(n, e))).len())
}

impl ASN1Constructed {
    /// A SubjectPublicKeyInfo for an RSA public key:
    /// `SEQUENCE { AlgorithmIdentifier(rsaEncryption),
    /// BIT STRING { SEQUENCE { INTEGER n, INTEGER e } } }`, with both
    /// integers sign-corrected.
    pub fn new_subject_key_rsa(key: &RsaPublicBytes) -> (r: Result<Self, TlsError>)
        ensures
            r is Ok <==> spki_ok(key.n@, key.e@),
            r matches Ok(v) ==> v.tag == 0x30 && contents_of(v.children@) == spki_content(
                key.n@,
                key.e@,
            ),
            r matches Err(e) ==> e == TlsError::Encode,
    {
        let n_c = der_integer_content(key.n.as_slice());
        let e_c = der_integer_content(key.e.as_slice());
        let inner_key = ASN1Constructed::new(0x30).add_bytes(0x02, n_c.as_slice())?.add_bytes(
            0x02,
            e_c.as_slice(),
        )?;
        assert(contents_of(inner_key.children@) =~= rsa_pubkey_content(key.n@, key.e@));
        let inner_bytes = inner_key.get_bytes()?;
        let v = ASN1Constructed::new(0x30).add_bytes(
            0x30,
            &[0x06, 0x09, 0x2a, 0x86, 0x48, 0x86, 0xf7, 0x0d, 0x01, 0x01, 0x01, 0x05, 0x00],
        )?.add_bytes(0x03, inner_bytes.as_slice())?;
        assert(contents_of(v.children@) =~= spki_content(key.n@, key.e@));
        Ok(v)
    }
}

/// Content of the `[0]` explicit version unit: INTEGER 2, meaning v3.
pub open spec fn version_content() -> Seq<u8> {
    seq![0x02u8, 0x01, 0x02]
}

/// Content of the `[3]` explicit extensions unit: an empty SEQUENCE.
pub open spec fn extensions_content() -> Seq<u8> {
    seq![0x30u8, 0x00]
}

/// Content of a TBSCertificate: version, serial, signature algorithm,
/// issuer, validity, subject, subject public key info and extensions, in
/// the order DER mandates.
pub open spec fn tbs_content(
    serial: Seq<u8>,
    sigalg: Seq<u8>,
    issuer_b: Seq<u8>,
    start: int,
    expire: int,
    subject_b: Seq<u8>,
    n: Seq<u8>,
    e: Seq<u8>,
) -> Seq<u8> {
    tlv(0xa0, version_content()) + tlv(0x02, int_content(serial)) + tlv(0x30, sigalg) + tlv(
        0x30,
        cn_name_content(issuer_b),
    ) + tlv(0x30, validity_content(start, expire)) + tlv(0x30, cn_name_content(subject_b)) + tlv(
        0x30,
        spki_content(n, e),
    ) + tlv(0xa3, extensions_content())
}

/// Whether every piece of a TBSCertificate stays within the encodable
/// length bound and the validity window stays in the supported range.
pub open spec fn tbs_ok(
    serial: Seq<u8>,
    sigalg: Seq<u8>,
    issuer_b: Seq<u8>,
    start: int,
    weeks: nat,
    subject_b: Seq<u8>,
    n: Seq<u8>,
    e: Seq<u8>,
) -> bool {
    &&& encodable(int_content(serial).len())
    &&& encodable(sigalg.len())
    &&& cn_ok(issuer_b)
    &&& encodable(cn_name_content(issuer_b).len())
    &&& 0 <= start && start + weeks * (WEEK_SECONDS as int) <= UTCTIME_TS_LIMIT
    &&& cn_ok(subject_b)
    &&& encodable(cn_name_content(subject_b).len())
    &&& spki_ok(n, e)
    &&& encodable(spki_content(n, e).len())
}

/// Assembles the to-be-signed certificate body for the given serial
/// magnitude and validity start; deterministic in its arguments.
pub fn build_tbs(
    issuer: &str,
    subject: &str,
    serial: &[u8],
    start_ts: i64,
    duration: u32,
    pubkey: &RsaPublicBytes,
    sigalg: &[u8],
) -> (r: Result<ASN1Constructed, TlsError>)
    ensures
        r is Ok <==> tbs_ok(
            serial@,
            sigalg@,
            issuer.spec_bytes(),
            start_ts as int,
            duration as nat,
            subject.spec_bytes(),
            pubkey.n@,
            pubkey.e@,
        ),
        r matches Ok(v) ==> v.tag == 0x30 && contents_of(v.children@) == tbs_content(
            serial@,
            sigalg@,
            issuer.spec_bytes(),
            start_ts as int,
            start_ts + (duration as int) * (WEEK_SECONDS as int),
            subject.spec_bytes(),
            pubkey.n@,
            pubkey.e@,
        ),
        r matches Err(e) ==> e == TlsError::Encode,
{
    let serial_c = der_integer_content(serial);
    let issuer_cn = ASN1Constructed::new_cn(issuer)?;
    let validity = ASN1Constructed::new_validity_from(start_ts, duration)?;
    let subject_cn = ASN1Constructed::new_cn(subject)?;
    let spki = ASN1Constructed::new_subject_key_rsa(pubkey)?;
    let v = ASN1Constructed::new(0x30).add_bytes(0xa0, &[0x02, 0x01, 0x02])?.add_bytes(
        0x02,
        serial_c.as_slice(),
    )?.add_bytes(0x30, sigalg)?.add_object(&issuer_cn)?.add_object(&validity)?.add_object(
        &subject_cn,
    )?.add_object(&spki)?.add_bytes(0xa3, &[0x30, 0x00])?;
    assert(contents_of(v.children@) =~= tbs_content(
        serial@,
        sigalg@,
        issuer.spec_bytes(),
        start_ts as int,
        start_ts + (duration as int) * (WEEK_SECONDS as int),
        subject.spec_bytes(),
        pubkey.n@,
        pubkey.e@,
    ));
    Ok(v)
}

/// Relies on `rand::thread_rng` and `RngCore::fill_bytes`: nine bytes of
/// fresh randomness for a certificate serial number.  Only the count is
/// promised, nothing about the values.
#[verifier::external_body]
fn random_serial() -> (r: Vec<u8>)
    ensures
        r@.len() == 9,
{
    let mut serial: [u8; 9] = [0; 9];
    rand::thread_rng().fill_bytes(&mut serial);
    serial.to_vec()
}

/// Assembles a to-be-signed certificate body with a fresh nine-byte
/// random serial number and a validity window starting now.  The random
/// serial and sampled clock are existentially quantified: whatever they
/// were, the body has exactly the assembled shape.
pub fn create_x509_tbs(
    issuer: &str,
    subject: &str,
    duration: u32,
    pubkey: &RsaPublicBytes,
    sigalg: &[u8],
) -> (r: Result<ASN1Constructed, TlsError>)
    ensures
        r matches Ok(v) ==> v.tag == 0x30 && exists|serial: Seq<u8>, start: int, expire: int|
            serial.len() == 9 && 0 <= start && expire == start + (duration as int) * (
            WEEK_SECONDS as int) && expire <= UTCTIME_TS_LIMIT && contents_of(v.children@)
                == #[trigger] tbs_content(
                serial,
                sigalg@,
                issuer.spec_bytes(),
                start,
                expire,
                subject.spec_bytes(),
                pubkey.n@,
                pubkey.e@,
            ),
        r matches Err(e) ==> e == TlsError::Encode,
{
    let serial = random_serial();
    let now = utc_now();
    let r = build_tbs(issuer, subject, serial.as_slice(), now, duration, pubkey, sigalg);
    proof {
        if r is Ok {
            let v = r->Ok_0;
            let expire = now + (duration as int) * (WEEK_SECONDS as int);
            assert(serial@.len() == 9 && 0 <= now as int && expire == now + (duration as int) * (
            WEEK_SECONDS as int) && expire <= UTCTIME_TS_LIMIT && contents_of(v.children@)
                == tbs_content(
                serial@,
                sigalg@,
                issuer.spec_bytes(),
                now as int,
                expire,
                subject.spec_bytes(),
                pubkey.n@,
                pubkey.e@,
            ));
        }
    }
    r
}

} // verus!
