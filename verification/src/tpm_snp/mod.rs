//! Attestation evidence of AMD SEV-SNP guests with coprocessors: ASN.1
//! formats, evidence assembly, and their place in CSRs.

pub mod csr_format;
pub mod pkix_compat;
