//! AMD SEV-SNP attestation: the report structure, its wire layout, and the
//! decisions taken around the guest device exchange that produces it.

pub mod csr_formats;
pub mod guest;
pub mod report;
pub mod tcb_version;

use vstd::prelude::*;

use self::guest::SevGuestErr;

verus! {

/// Everything that can go wrong with the core attestation components.
#[derive(Debug)]
pub enum AttestationCoreErr {
    /// Data received is the wrong size: (expected, actual).
    InvalidBufferSize(usize, usize),
    /// The signature algorithm code is not supported; only 1 is.
    UnsupportedSignatureAlgo(u32),
    /// The guest device exchange failed.
    GuestErr(SevGuestErr),
    /// The report contents do not allow the requested interpretation.
    ReportVerificationError(String),
}

} // verus!
