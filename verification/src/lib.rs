//! Self-signed TLS material generation.
//!
//! This crate builds a DER-encoded X.509 certificate together with an RSA
//! private key, renders both as PEM, and decides when a server bootstrap
//! needs to generate them.  The DER encoder, the to-be-signed certificate
//! assembly and the PEM framing are verified; calls into the RSA, random,
//! time and Base64 providers are trusted at narrow, documented interfaces.

pub mod asn1;
pub mod errors;
pub mod keys;
pub mod pem;
pub mod serve;
pub mod tls;
pub mod x509;
