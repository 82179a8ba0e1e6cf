//! NVIDIA GPU attestation as a coprocessor attestation.

pub mod csr_format;
