//! Error kinds for TLS material generation.

use vstd::prelude::*;

verus! {

/// Failure kinds of the certificate and key pipeline.
///
/// `Encode` covers DER encoding failures such as a content length that does
/// not fit the four supported long-form length bytes; `KeyGen` covers RSA
/// key generation or key serialization failures; `Sign` covers signing
/// failures; `Io` is reserved for callers that persist the generated
/// material.
#[derive(Clone, Copy, Debug, PartialEq, Eq, Structural)]
pub enum TlsError {
    Encode,
    KeyGen,
    Sign,
    Io,
}

} // verus!
