//! The errors of the attestation client.

use vstd::prelude::*;

use crate::sev::AttestationCoreErr;
use crate::tdx::AttestationErr as TdxErr;

verus! {

/// Everything that can go wrong in the attestation client.
#[derive(Debug)]
pub enum Error {
    /// Generating the application certificate failed.
    AppCertErr(String),
    /// A certificate could not be parsed.
    CertErr(String),
    /// The node agent could not be reached or refused a request.
    NACliErr(String),
    /// Local attestation failed.
    LocalAttestErr(String),
    /// AMD SEV-SNP attestation failed.
    SevAttestationErr(AttestationCoreErr),
    /// Intel TDX attestation failed.
    TdxAttestationErr(TdxErr),
    /// Attestation data could not be generated.
    AttestErr(String),
    /// A cryptographic primitive failed.
    CryptoErr(String),
    /// Data could not be converted between types.
    ConversionErr(String),
}

} // verus!
