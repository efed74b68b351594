//! DER encoding of ASN.1 tag-length-value units.
//!
//! A value is either primitive (a tag and raw content bytes, where a BIT
//! STRING prepends a zero unused-bits octet) or constructed (a tag and the
//! concatenation of already-encoded child units).  Content lengths up to
//! but excluding `2^32` are supported: below 0x80 the length field is the
//! single short-form octet, otherwise it is `0x80 | k` followed by the `k`
//! minimal big-endian bytes of the length.

use vstd::arithmetic::div_mod::{lemma_div_denominator, lemma_fundamental_div_mod};
use vstd::prelude::*;

use crate::errors::TlsError;

verus! {

/// Exclusive upper bound on encodable content lengths: four long-form
/// length bytes carry at most `2^32 - 1`.
pub const LEN_LIMIT: u64 = 0x1_0000_0000;

/// Whether a content length fits the supported length forms.
pub open spec fn encodable(l: nat) -> bool {
    l < LEN_LIMIT
}

/// Number of big-endian bytes the long form spends on content length `l`
/// (meaningful for `l < 2^32`).
pub open spec fn min_len_bytes(l: nat) -> nat {
    if l < 0x100 {
        1
    } else if l < 0x1_0000 {
        2
    } else if l < 0x100_0000 {
        3
    } else {
        4
    }
}

/// The `k` low-order bytes of `l`, big-endian.
pub open spec fn be_bytes(l: nat, k: nat) -> Seq<u8>
    decreases k,
{
    if k == 0 {
        Seq::empty()
    } else {
        be_bytes(l / 0x100, (k - 1) as nat).push((l % 0x100) as u8)
    }
}

/// The value carried by big-endian bytes `s`.
pub open spec fn be_value(s: Seq<u8>) -> nat
    decreases s.len(),
{
    if s.len() == 0 {
        0
    } else {
        be_value(s.drop_last()) * 0x100 + s.last() as nat
    }
}

/// `0x100^k`.
pub open spec fn pow256(k: nat) -> nat
    decreases k,
{
    if k == 0 {
        1
    } else {
        0x100 * pow256((k - 1) as nat)
    }
}

/// DER length field for content length `l`.
pub open spec fn len_field(l: nat) -> Seq<u8> {
    if l < 0x80 {
        seq![l as u8]
    } else {
        seq![(0x80 + min_len_bytes(l)) as u8] + be_bytes(l, min_len_bytes(l))
    }
}

/// Content octets of a primitive unit: a BIT STRING (tag 0x03) carries a
/// leading zero unused-bits octet ahead of the byte-aligned payload.
pub open spec fn der_content(tag: u8, contents: Seq<u8>) -> Seq<u8> {
    if tag == 0x03 {
        seq![0u8] + contents
    } else {
        contents
    }
}

/// A complete tag-length-value unit for the given content octets.
pub open spec fn tlv(tag: u8, content: Seq<u8>) -> Seq<u8> {
    seq![tag] + len_field(content.len()) + content
}

/// Appends the DER length field for `len` to `bytes`; lengths of `2^32`
/// and above are rejected, never truncated.
pub fn asn1_push_len(bytes: &mut Vec<u8>, len: usize) -> (r: Result<(), TlsError>)
    ensures
        r is Ok <==> encodable(len as nat),
        r is Ok ==> final(bytes)@ == old(bytes)@ + len_field(len as nat),
        r matches Err(e) ==> e == TlsError::Encode && final(bytes)@ == old(bytes)@,
{
    let l: u64 = len as u64;
    if l < 0x80 {
        bytes.push(len as u8);
        assert(final(bytes)@ =~= old(bytes)@ + len_field(len as nat));
        Ok(())
    } else if l < 0x100 {
        bytes.push(0x81);
        bytes.push((l % 0x100) as u8);
        proof {
            reveal_with_fuel(be_bytes, 2);
            assert(be_bytes(len as nat, 1) =~= seq![(len as nat % 0x100) as u8]);
            assert(bytes@ =~= old(bytes)@ + len_field(len as nat));
        }
        Ok(())
    } else if l < 0x1_0000 {
        bytes.push(0x82);
        bytes.push((l / 0x100 % 0x100) as u8);
        bytes.push((l % 0x100) as u8);
        proof {
            reveal_with_fuel(be_bytes, 3);
            let ln = len as nat;
            assert(be_bytes(ln, 2) =~= seq![(ln / 0x100 % 0x100) as u8, (ln % 0x100) as u8]);
            assert(bytes@ =~= old(bytes)@ + len_field(ln));
        }
        Ok(())
    } else if l < 0x100_0000 {
        bytes.push(0x83);
        bytes.push((l / 0x1_0000 % 0x100) as u8);
        bytes.push((l / 0x100 % 0x100) as u8);
        bytes.push((l % 0x100) as u8);
        proof {
            reveal_with_fuel(be_bytes, 4);
            let ln = len as nat;
            lemma_div_denominator(ln as int, 0x100, 0x100);
            assert(be_bytes(ln, 3) =~= seq![
                (ln / 0x1_0000 % 0x100) as u8,
                (ln / 0x100 % 0x100) as u8,
                (ln % 0x100) as u8,
            ]);
            assert(bytes@ =~= old(bytes)@ + len_field(ln));
        }
        Ok(())
    } else if l < LEN_LIMIT {
        bytes.push(0x84);
        bytes.push((l / 0x100_0000 % 0x100) as u8);
        bytes.push((l / 0x1_0000 % 0x100) as u8);
        bytes.push((l / 0x100 % 0x100) as u8);
        bytes.push((l % 0x100) as u8);
        proof {
            reveal_with_fuel(be_bytes, 5);
            let ln = len as nat;
            lemma_div_denominator(ln as int, 0x100, 0x100);
            lemma_div_denominator(ln as int, 0x1_0000, 0x100);
            assert(be_bytes(ln, 4) =~= seq![
                (ln / 0x100_0000 % 0x100) as u8,
                (ln / 0x1_0000 % 0x100) as u8,
                (ln / 0x100 % 0x100) as u8,
                (ln % 0x100) as u8,
            ]);
            assert(bytes@ =~= old(bytes)@ + len_field(ln));
        }
        Ok(())
    } else {
        Err(TlsError::Encode)
    }
}

/// Content length and number of length octets read back from `s`, the
/// byte string that follows a tag octet; `None` when `s` is too short to
/// hold the announced length octets or uses the reserved form 0x80.
pub open spec fn decode_len_field(s: Seq<u8>) -> Option<(nat, nat)> {
    if s.len() == 0 {
        None
    } else if s[0] < 0x80 {
        Some((s[0] as nat, 1nat))
    } else {
        let k = (s[0] - 0x80) as nat;
        if k == 0 || k + 1 > s.len() {
            None
        } else {
            Some((be_value(s.subrange(1, k + 1 as int)), (k + 1) as nat))
        }
    }
}

proof fn lemma_be_value_of_be_bytes(l: nat, k: nat)
    requires
        1 <= k <= 4,
        l < pow256(k),
    ensures
        be_value(be_bytes(l, k)) == l,
    decreases k,
{
    reveal_with_fuel(pow256, 5);
    reveal_with_fuel(be_bytes, 5);
    reveal_with_fuel(be_value, 5);
    if k == 1 {
        assert(be_bytes(l, 1) =~= Seq::<u8>::empty().push((l % 0x100) as u8));
        assert(be_value(be_bytes(l, 1)) == l % 0x100);
        assert(l % 0x100 == l);
    } else {
        let rest = be_bytes(l / 0x100, (k - 1) as nat);
        assert(be_bytes(l, k) == rest.push((l % 0x100) as u8));
        assert(be_bytes(l, k).drop_last() =~= rest);
        assert(l / 0x100 < pow256((k - 1) as nat)) by (nonlinear_arith)
            requires
                l < pow256(k),
                pow256(k) == 0x100 * pow256((k - 1) as nat),
        ;
        lemma_be_value_of_be_bytes(l / 0x100, (k - 1) as nat);
        lemma_fundamental_div_mod(l as int, 0x100);
    }
}

/// Decoding the length field written for content length `l` yields `l`
/// back together with the number of length octets spent, and that count
/// is minimal: one short-form octet below 0x80, otherwise the fewest
/// big-endian bytes that can carry `l`.  `tail` stands for whatever
/// content follows the header.
pub proof fn lemma_len_field_round_trip(l: nat, tail: Seq<u8>)
    requires
        encodable(l),
    ensures
        decode_len_field(len_field(l) + tail) == Some((l, len_field(l).len())),
        l < 0x80 ==> len_field(l).len() == 1,
        l >= 0x80 ==> len_field(l).len() == 1 + min_len_bytes(l),
        l < pow256(min_len_bytes(l)),
        min_len_bytes(l) == 1 || pow256((min_len_bytes(l) - 1) as nat) <= l,
{
    reveal_with_fuel(pow256, 5);
    let s = len_field(l) + tail;
    if l < 0x80 {
        assert(s[0] == l as u8);
    } else {
        let k = min_len_bytes(l);
        assert(s[0] == (0x80 + k) as u8);
        assert((s[0] - 0x80) as nat == k);
        assert(be_bytes(l, k).len() == k) by {
            reveal_with_fuel(be_bytes, 5);
        }
        assert(s.subrange(1, k + 1 as int) =~= be_bytes(l, k));
        lemma_be_value_of_be_bytes(l, k);
    }
}

/// The length field spends one octet in the short form and at most five
/// in the long form.
pub proof fn lemma_len_field_len(l: nat)
    ensures
        len_field(l).len() == if l < 0x80 {
            1nat
        } else {
            (1 + min_len_bytes(l)) as nat
        },
        len_field(l).len() <= 5,
{
    reveal_with_fuel(be_bytes, 5);
}

/// A BIT STRING's content octets always begin with a zero unused-bits
/// octet, ahead of the byte-aligned payload.
pub proof fn lemma_bit_string_unused_bits(contents: Seq<u8>)
    ensures
        der_content(0x03, contents).len() == contents.len() + 1,
        der_content(0x03, contents)[0] == 0u8,
{
}

/// Concatenation of the encodings held by a constructed unit's children.
pub open spec fn contents_of(cs: Seq<Vec<u8>>) -> Seq<u8>
    decreases cs.len(),
{
    if cs.len() == 0 {
        Seq::empty()
    } else {
        contents_of(cs.drop_last()) + cs.last()@
    }
}

proof fn lemma_contents_of_push(cs: Seq<Vec<u8>>, v: Vec<u8>)
    ensures
        contents_of(cs.push(v)) == contents_of(cs) + v@,
{
    assert(cs.push(v).drop_last() =~= cs);
    assert(cs.push(v).last() == v);
}

proof fn lemma_contents_of_take_le(cs: Seq<Vec<u8>>, i: int)
    requires
        0 <= i <= cs.len(),
    ensures
        contents_of(cs.take(i)).len() <= contents_of(cs).len(),
    decreases cs.len() - i,
{
    if i == cs.len() {
        assert(cs.take(i) =~= cs);
    } else {
        lemma_contents_of_take_le(cs, i + 1);
        assert(cs.take(i + 1) =~= cs.take(i).push(cs[i]));
        lemma_contents_of_push(cs.take(i), cs[i]);
    }
}

proof fn lemma_contents_of_take_succ(cs: Seq<Vec<u8>>, i: int)
    requires
        0 <= i < cs.len(),
    ensures
        contents_of(cs.take(i + 1)) == contents_of(cs.take(i)) + cs[i]@,
{
    assert(cs.take(i + 1) =~= cs.take(i).push(cs[i]));
    lemma_contents_of_push(cs.take(i), cs[i]);
}

/// Appends all of `src` to `out`.
pub(crate) fn push_all(out: &mut Vec<u8>, src: &[u8])
    ensures
        final(out)@ == old(out)@ + src@,
{
    let mut i: usize = 0;
    while i < src.len()
        invariant
            i <= src@.len(),
            out@ == old(out)@ + src@.take(i as int),
        decreases src@.len() - i,
    {
        out.push(src[i]);
        assert(out@ =~= old(out)@ + src@.take(i + 1));
        i = i + 1;
    }
    assert(out@ =~= old(out)@ + src@);
}

/// A fully specified primitive ASN.1 unit: a tag and its raw content bytes.
pub struct ASN1Primitive {
    pub tag: u8,
    pub contents: Vec<u8>,
}

impl ASN1Primitive {
    /// A primitive unit over a copy of the given content bytes.
    pub fn new(tag: u8, contents: &[u8]) -> (r: Self)
        ensures
            r.tag == tag,
            r.contents@ == contents@,
    {
        ASN1Primitive { tag, contents: vstd::slice::slice_to_vec(contents) }
    }

    /// Length of this unit's content octets, including the unused-bits
    /// octet of a BIT STRING; lengths of `2^32` and above are rejected.
    pub fn get_len(&self) -> (r: Result<usize, TlsError>)
        ensures
            r is Ok <==> encodable(der_content(self.tag, self.contents@).len()),
            r matches Ok(l) ==> l == der_content(self.tag, self.contents@).len(),
            r matches Err(e) ==> e == TlsError::Encode,
    {
        let l: u64 = self.contents.len() as u64;
        if self.tag == 0x03 {
            if l >= LEN_LIMIT - 1 {
                Err(TlsError::Encode)
            } else {
                Ok((self.contents.len() + 1) as usize)
            }
        } else {
            if l >= LEN_LIMIT {
                Err(TlsError::Encode)
            } else {
                Ok(self.contents.len())
            }
        }
    }

    /// The complete DER encoding of this unit.
    pub fn get_bytes(&self) -> (r: Result<Vec<u8>, TlsError>)
        ensures
            r is Ok <==> encodable(der_content(self.tag, self.contents@).len()),
            r matches Ok(v) ==> v@ == tlv(self.tag, der_content(self.tag, self.contents@)),
            r matches Err(e) ==> e == TlsError::Encode,
    {
        let len = self.get_len()?;
        let mut result: Vec<u8> = Vec::new();
        result.push(self.tag);
        match asn1_push_len(&mut result, len) {
            Ok(()) => {}
            Err(e) => {
                return Err(e);
            }
        }
        if self.tag == 0x03 {
            result.push(0x00);
        }
        push_all(&mut result, self.contents.as_slice());
        assert(result@ =~= tlv(self.tag, der_content(self.tag, self.contents@)));
        Ok(result)
    }
}

/// A constructed ASN.1 unit: a tag over the encodings of its children,
/// each child held as its complete DER byte string.
pub struct ASN1Constructed {
    pub tag: u8,
    pub children: Vec<Vec<u8>>,
}

impl ASN1Constructed {
    /// An empty constructed unit with the given tag.
    pub fn new(tag: u8) -> (r: Self)
        ensures
            r.tag == tag,
            r.children@ =~= Seq::<Vec<u8>>::empty(),
            contents_of(r.children@) == Seq::<u8>::empty(),
    {
        ASN1Constructed { tag, children: Vec::new() }
    }

    /// Total length of the children's encodings; sums of `2^32` and above
    /// are rejected.
    pub fn get_len(&self) -> (r: Result<usize, TlsError>)
        ensures
            r is Ok <==> encodable(contents_of(self.children@).len()),
            r matches Ok(l) ==> l == contents_of(self.children@).len(),
            r matches Err(e) ==> e == TlsError::Encode,
    {
        let mut total: u64 = 0;
        let mut i: usize = 0;
        while i < self.children.len()
            invariant
                i <= self.children@.len(),
                total == contents_of(self.children@.take(i as int)).len(),
                total < LEN_LIMIT,
            decreases self.children@.len() - i,
        {
            let cl: u64 = self.children[i].len() as u64;
            proof {
                lemma_contents_of_take_succ(self.children@, i as int);
                lemma_contents_of_take_le(self.children@, i + 1);
            }
            if cl >= LEN_LIMIT {
                return Err(TlsError::Encode);
            }
            let nt: u64 = total + cl;
            if nt >= LEN_LIMIT {
                return Err(TlsError::Encode);
            }
            total = nt;
            i = i + 1;
        }
        proof {
            assert(self.children@.take(i as int) =~= self.children@);
        }
        Ok(total as usize)
    }

    /// The complete DER encoding of this unit.
    pub fn get_bytes(&self) -> (r: Result<Vec<u8>, TlsError>)
        ensures
            r is Ok <==> encodable(contents_of(self.children@).len()),
            r matches Ok(v) ==> v@ == tlv(self.tag, contents_of(self.children@)),
            r matches Err(e) ==> e == TlsError::Encode,
    {
        let len = self.get_len()?;
        let mut result: Vec<u8> = Vec::new();
        result.push(self.tag);
        match asn1_push_len(&mut result, len) {
            Ok(()) => {}
            Err(e) => {
                return Err(e);
            }
        }
        let ghost header: Seq<u8> = seq![self.tag] + len_field(contents_of(self.children@).len());
        assert(result@ =~= header);
        let mut ci: usize = 0;
        while ci < self.children.len()
            invariant
                ci <= self.children@.len(),
                result@ == header + contents_of(self.children@.take(ci as int)),
            decreases self.children@.len() - ci,
        {
            push_all(&mut result, self.children[ci].as_slice());
            proof {
                lemma_contents_of_take_succ(self.children@, ci as int);
            }
            ci = ci + 1;
        }
        proof {
            assert(self.children@.take(ci as int) =~= self.children@);
            assert(result@ =~= tlv(self.tag, contents_of(self.children@)));
        }
        Ok(result)
    }

    /// Appends an already-built constructed child, encoding it eagerly.
    pub fn add_object(self, object: &ASN1Constructed) -> (r: Result<Self, TlsError>)
        ensures
            r is Ok <==> encodable(contents_of(object.children@).len()),
            r matches Ok(v) ==> v.tag == self.tag && contents_of(v.children@) == contents_of(
                self.children@,
            ) + tlv(object.tag, contents_of(object.children@)),
            r matches Err(e) ==> e == TlsError::Encode,
    {
        let bytes = object.get_bytes()?;
        let mut r = self;
        proof {
            lemma_contents_of_push(r.children@, bytes);
        }
        r.children.push(bytes);
        Ok(r)
    }

    /// Appends a primitive child with the given tag and content bytes.
    pub fn add_bytes(self, tag: u8, contents: &[u8]) -> (r: Result<Self, TlsError>)
        ensures
            r is Ok <==> encodable(der_content(tag, contents@).len()),
            r matches Ok(v) ==> v.tag == self.tag && contents_of(v.children@) == contents_of(
                self.children@,
            ) + tlv(tag, der_content(tag, contents@)),
            r matches Err(e) ==> e == TlsError::Encode,
    {
        let bytes = ASN1Primitive::new(tag, contents).get_bytes()?;
        let mut r = self;
        proof {
            lemma_contents_of_push(r.children@, bytes);
        }
        r.children.push(bytes);
        Ok(r)
    }
}

} // verus!
