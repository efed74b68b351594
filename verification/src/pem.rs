//! PEM framing of DER byte strings.
//!
//! A PEM file is a `-----BEGIN <label>-----` line, the Base64 encoding of
//! the DER bytes broken into lines of 64 characters, and a
//! `-----END <label>-----` line; every line including the last ends in a
//! single newline.  Stripping the two marker lines and the newlines gives
//! back exactly the Base64 body.

use vstd::prelude::*;

use crate::errors::TlsError;

verus! {

/// The Base64 encoding (standard alphabet, padded) of `data`, as ASCII
/// bytes.  The encoding is a function of the input bytes alone.
pub uninterp spec fn base64_of(data: Seq<u8>) -> Seq<u8>;

/// Whether `b` is an ASCII byte of the standard Base64 alphabet or the
/// padding character `=`.
pub open spec fn is_base64_byte(b: u8) -> bool {
    (0x41 <= b <= 0x5a)  // 'A'..'Z'
    || (0x61 <= b <= 0x7a)  // 'a'..'z'
    || (0x30 <= b <= 0x39)  // '0'..'9'
    || b == 0x2b  // '+'
    || b == 0x2f  // '/'
    || b == 0x3d  // '='
}

/// Largest input length handed to the Base64 encoder, comfortably below
/// the point where the output size calculation could overflow `usize`.
pub const B64_INPUT_LIMIT: u64 = 0x4000_0000_0000_0000;

/// Relies on `base64::encode`: the standard-alphabet, padded Base64
/// encoding of the input, four output bytes for every three input bytes
/// started, every output byte from the Base64 alphabet or `=`.
#[verifier::external_body]
fn base64_encode(data: &[u8]) -> (r: Vec<u8>)
    requires
        data@.len() <= B64_INPUT_LIMIT,
    ensures
        r@ == base64_of(data@),
        r@.len() == 4 * ((data@.len() + 2) / 3),
        forall|i: int| 0 <= i < r@.len() ==> is_base64_byte(#[trigger] r@[i]),
{
    base64::encode(data).into_bytes()
}

/// The newline byte that separates PEM lines.
pub const NEWLINE: u8 = 0x0a;

/// `-----BEGIN <label>-----` and its newline, as bytes.
pub open spec fn begin_marker(label: Seq<u8>) -> Seq<u8> {
    seq![0x2du8, 0x2d, 0x2d, 0x2d, 0x2d, 0x42, 0x45, 0x47, 0x49, 0x4e, 0x20] + label + seq![
        0x2du8,
        0x2d,
        0x2d,
        0x2d,
        0x2d,
        0x0a,
    ]
}

/// `-----END <label>-----` and its newline, as bytes.
pub open spec fn end_marker(label: Seq<u8>) -> Seq<u8> {
    seq![0x2du8, 0x2d, 0x2d, 0x2d, 0x2d, 0x45, 0x4e, 0x44, 0x20] + label + seq![
        0x2du8,
        0x2d,
        0x2d,
        0x2d,
        0x2d,
        0x0a,
    ]
}

/// The Base64 body broken into lines of at most 64 bytes, each line
/// closed by a newline; an empty body produces no line at all.
pub open spec fn wrap64(body: Seq<u8>) -> Seq<u8>
    decreases body.len(),
{
    if body.len() == 0 {
        Seq::empty()
    } else if body.len() <= 64 {
        body + seq![NEWLINE]
    } else {
        body.take(64) + seq![NEWLINE] + wrap64(body.skip(64))
    }
}

/// The whole PEM text for a label and a Base64 body.
pub open spec fn pem_view(label: Seq<u8>, body: Seq<u8>) -> Seq<u8> {
    begin_marker(label) + wrap64(body) + end_marker(label)
}

/// `s` with every newline byte removed.
pub open spec fn strip_newlines(s: Seq<u8>) -> Seq<u8>
    decreases s.len(),
{
    if s.len() == 0 {
        Seq::empty()
    } else if s.last() == NEWLINE {
        strip_newlines(s.drop_last())
    } else {
        strip_newlines(s.drop_last()).push(s.last())
    }
}

/// The PEM body recovered from a PEM text: the bytes between the two
/// marker lines, with the line breaks removed.
pub open spec fn pem_strip(p: Seq<u8>, label: Seq<u8>) -> Seq<u8> {
    strip_newlines(
        p.subrange(begin_marker(label).len() as int, p.len() - end_marker(label).len()),
    )
}

proof fn lemma_strip_newlines_add(a: Seq<u8>, b: Seq<u8>)
    ensures
        strip_newlines(a + b) == strip_newlines(a) + strip_newlines(b),
    decreases b.len(),
{
    if b.len() == 0 {
        assert(a + b =~= a);
        assert(strip_newlines(a) + strip_newlines(b) =~= strip_newlines(a));
    } else {
        assert((a + b).drop_last() =~= a + b.drop_last());
        assert((a + b).last() == b.last());
        lemma_strip_newlines_add(a, b.drop_last());
        if b.last() != NEWLINE {
            assert((strip_newlines(a) + strip_newlines(b.drop_last())).push(b.last())
                =~= strip_newlines(a) + strip_newlines(b.drop_last()).push(b.last()));
        }
    }
}

proof fn lemma_strip_newlines_none(s: Seq<u8>)
    requires
        forall|i: int| 0 <= i < s.len() ==> s[i] != NEWLINE,
    ensures
        strip_newlines(s) == s,
    decreases s.len(),
{
    if s.len() > 0 {
        lemma_strip_newlines_none(s.drop_last());
        assert(strip_newlines(s.drop_last()).push(s.last()) =~= s);
    }
}

/// Removing the line breaks from the wrapped body restores the body,
/// provided the body itself holds no newline byte.
pub proof fn lemma_wrap64_strips(body: Seq<u8>)
    requires
        forall|i: int| 0 <= i < body.len() ==> body[i] != NEWLINE,
    ensures
        strip_newlines(wrap64(body)) == body,
    decreases body.len(),
{
    let nl = seq![NEWLINE];
    assert(strip_newlines(nl) =~= Seq::<u8>::empty()) by {
        reveal_with_fuel(strip_newlines, 2);
        assert(nl.drop_last() =~= Seq::<u8>::empty());
    }
    if body.len() == 0 {
    } else if body.len() <= 64 {
        lemma_strip_newlines_add(body, nl);
        lemma_strip_newlines_none(body);
        assert(strip_newlines(wrap64(body)) =~= body);
    } else {
        let head = body.take(64);
        let tail = body.skip(64);
        lemma_strip_newlines_add(head + nl, wrap64(tail));
        lemma_strip_newlines_add(head, nl);
        lemma_strip_newlines_none(head);
        assert(forall|i: int| 0 <= i < tail.len() ==> tail[i] != NEWLINE);
        lemma_wrap64_strips(tail);
        assert(wrap64(body) == (head + nl) + wrap64(tail));
        assert(strip_newlines(wrap64(body)) =~= body);
    }
}

/// Appends the five dashes shared by both marker lines.
fn push_dashes(out: &mut Vec<u8>)
    ensures
        final(out)@ == old(out)@ + seq![0x2du8, 0x2d, 0x2d, 0x2d, 0x2d],
{
    out.push(0x2d);
    out.push(0x2d);
    out.push(0x2d);
    out.push(0x2d);
    out.push(0x2d);
    assert(final(out)@ =~= old(out)@ + seq![0x2du8, 0x2d, 0x2d, 0x2d, 0x2d]);
}

/// Appends `-----<word> <label>-----` and a newline.
fn push_marker(out: &mut Vec<u8>, word: &[u8], label: &[u8])
    ensures
        final(out)@ == old(out)@ + seq![0x2du8, 0x2d, 0x2d, 0x2d, 0x2d] + word@ + seq![0x20u8]
            + label@ + seq![0x2du8, 0x2d, 0x2d, 0x2d, 0x2d, 0x0a],
{
    push_dashes(out);
    crate::asn1::push_all(out, word);
    out.push(0x20);
    crate::asn1::push_all(out, label);
    push_dashes(out);
    out.push(NEWLINE);
    assert(final(out)@ =~= old(out)@ + seq![0x2du8, 0x2d, 0x2d, 0x2d, 0x2d] + word@ + seq![0x20u8]
        + label@ + seq![0x2du8, 0x2d, 0x2d, 0x2d, 0x2d, 0x0a]);
}

/// Renders DER bytes as a PEM text with the given label: a BEGIN marker
/// line, the Base64 body in 64-byte lines, and an END marker line, each
/// line closed by one newline.  Stripping the marker lines and the line
/// breaks of the result gives back exactly the Base64 body.
pub fn to_pem(der: &[u8], label: &[u8]) -> (r: Result<Vec<u8>, TlsError>)
    ensures
        r is Ok <==> der@.len() <= B64_INPUT_LIMIT,
        r matches Ok(v) ==> v@ == pem_view(label@, base64_of(der@)) && pem_strip(v@, label@)
            == base64_of(der@),
        r matches Err(e) ==> e == TlsError::Encode,
{
    if der.len() as u64 > B64_INPUT_LIMIT {
        return Err(TlsError::Encode);
    }
    let body = base64_encode(der);
    let ghost begin: Seq<u8> = begin_marker(label@);
    let mut out: Vec<u8> = Vec::new();
    push_marker(&mut out, &[0x42, 0x45, 0x47, 0x49, 0x4e], label);
    assert(out@ =~= begin);

    let ghost mut done: Seq<u8> = Seq::<u8>::empty();
    let mut idx: usize = 0;
    proof {
        assert(body@.skip(0) =~= body@);
        assert(done + wrap64(body@) =~= wrap64(body@));
    }
    while idx < body.len()
        invariant
            idx <= body@.len(),
            out@ == begin + done,
            wrap64(body@) == done + wrap64(body@.skip(idx as int)),
        decreases body@.len() - idx,
    {
        let end: usize = if body.len() - idx > 64 {
            idx + 64
        } else {
            body.len()
        };
        let ghost chunk: Seq<u8> = body@.subrange(idx as int, end as int);
        let mut j: usize = idx;
        while j < end
            invariant
                idx <= j <= end <= body@.len(),
                out@ == begin + done + body@.subrange(idx as int, j as int),
            decreases end - j,
        {
            out.push(body[j]);
            assert(out@ =~= begin + done + body@.subrange(idx as int, j + 1 as int));
            j = j + 1;
        }
        out.push(NEWLINE);
        proof {
            let rest = body@.skip(idx as int);
            if body@.len() - idx > 64 {
                assert(rest.take(64) =~= chunk);
                assert(rest.skip(64) =~= body@.skip(end as int));
                assert(wrap64(rest) == chunk + seq![NEWLINE] + wrap64(body@.skip(end as int)));
            } else {
                assert(rest =~= chunk);
                assert(wrap64(body@.skip(end as int)) =~= Seq::<u8>::empty());
                assert(wrap64(rest) == chunk + seq![NEWLINE]);
            }
            done = done + chunk + seq![NEWLINE];
            assert(out@ =~= begin + done);
            assert(wrap64(body@) == done + wrap64(body@.skip(end as int)));
        }
        idx = end;
    }
    proof {
        assert(wrap64(body@.skip(idx as int)) =~= Seq::<u8>::empty());
        assert(wrap64(body@) =~= done);
    }
    push_marker(&mut out, &[0x45, 0x4e, 0x44], label);
    proof {
        assert(out@ =~= pem_view(label@, base64_of(der@)));
        let p = out@;
        assert(p.subrange(begin.len() as int, p.len() - end_marker(label@).len()) =~= wrap64(
            body@,
        ));
        assert(forall|i: int| 0 <= i < body@.len() ==> body@[i] != NEWLINE);
        lemma_wrap64_strips(body@);
    }
    Ok(out)
}

} // verus!
