# attestation

Attestation evidence for confidential-computing guests, verified with Verus.

- `src/sev`: the AMD SEV-SNP attestation report (its 1184-byte layout, its
  fields and bitfields, the TCB version order), the judgement of the guest
  device's answer, and the CSR encoding of a report with its certificates.
- `src/tdx`: the Intel TDX report (TDREPORT), its split into the report MAC
  and the measurements, their DER encodings and decoders, and the report data
  that binds a key hash into the report.
- `src/tpm_snp`: the ASN.1 structures of vTPM and bare-metal SEV-SNP evidence,
  the set of coprocessor attestations (sorted by encoding, each type once),
  their encoders and readers, and their CSR attributes and extensions.
- `src/nvidia`: the attestation of one NVIDIA GPU as a coprocessor attestation.
- `src/client`: the attestation client's decisions: the CSR subjects and
  attributes, the quoting enclave certificates, the node agent retries, the
  vsock target, the application key and certificate paths.
- `src/ber.rs`: BER definite lengths (long forms, leading zeros), as the
  readers of the TDX and SEV-SNP CSR structures accept them.
- `src/der.rs`, `src/le.rs`: DER framing and little-endian fields, with their
  laws.
- `app/`: the program around the library: the guest device ioctls, SHA-256,
  the key pair and CSR signing, the node agent over vsock, and the files.
