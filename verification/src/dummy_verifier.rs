//! Certificate policies: what decides, during the TLS handshake, whether the
//! certificate that a server presents is accepted.
//!
//! The transaction engine takes any policy. [`DummyVerifier`] accepts every
//! certificate: it stands in until a policy that validates the chain, or one
//! that trusts on first use, takes its place.

use vstd::prelude::*;

verus! {

/// A policy on server certificates. Certificates and the OCSP response are
/// given in DER, the time in seconds since the Unix epoch.
pub trait CertificateVerifier {
    /// Decides on the certificate that a server presents.
    fn verify_server_cert(
        &self,
        end_entity: &[u8],
        intermediates: &[Vec<u8>],
        server_name: &str,
        scts: &[Vec<u8>],
        ocsp_response: &[u8],
        now: u64,
    ) -> (accepted: bool);
}

/// The policy that accepts every certificate.
#[derive(Copy, Clone, Debug)]
pub struct DummyVerifier;

impl DummyVerifier {
    pub fn new() -> (verifier: DummyVerifier)
        ensures
            verifier == DummyVerifier,
    {
        DummyVerifier
    }
}

impl CertificateVerifier for DummyVerifier {
    fn verify_server_cert(
        &self,
        end_entity: &[u8],
        intermediates: &[Vec<u8>],
        server_name: &str,
        scts: &[Vec<u8>],
        ocsp_response: &[u8],
        now: u64,
    ) -> (accepted: bool)
        ensures
            accepted,
    {
        true
    }
}

} // verus!
