//! Attestation evidence for confidential-computing guests (AMD SEV-SNP,
//! Intel TDX, with NVIDIA GPUs as coprocessors): the report layouts, their
//! ASN.1 DER encodings for CSRs, and the decisions of the attestation
//! client around the device, hashing, signing and network steps that its
//! caller performs.

pub mod ber;
pub mod client;
pub mod csr;
pub mod der;
pub mod document;
pub mod le;
pub mod nvidia;
pub mod sev;
pub mod tdx;
pub mod text;
pub mod tpm_snp;
