//! The CSR encoding of the attestation of one NVIDIA GPU.
//!
//! ```asn1
//! NvidiaAttestationV1 ::= SEQUENCE {
//!     attestation-report       OCTET STRING,
//!     certificates             SEQUENCE OF Certificate
//! }
//! ```

use vstd::prelude::*;

use crate::der::{all_elements, oid_content, oid_from_arcs, views, Asn1Error, DER_MAX_LEN};
use crate::document::{all_documents, der_document_accepts};
use crate::sev::csr_formats::{report_and_evidence_der, ReportAndEvidence};

verus! {

/// The arcs of the OID that names NVIDIA attestations among coprocessor
/// attestations: 1.3.6.1.4.1.49690.2.2.11.1.
pub open spec fn nvidia_attestation_oid_arcs() -> Seq<u64> {
    seq![1, 3, 6, 1, 4, 1, 49690, 2, 2, 11, 1]
}

/// The contents of that OBJECT IDENTIFIER.
pub open spec fn nvidia_attestation_oid() -> Seq<u8> {
    oid_content(nvidia_attestation_oid_arcs())
}

/// The contents of the OBJECT IDENTIFIER that names NVIDIA attestations.
pub fn nvidia_attestation_oid_content() -> (c: Vec<u8>)
    ensures
        c@ == nvidia_attestation_oid(),
{
    let arcs = vec![1u64, 3, 6, 1, 4, 1, 49690, 2, 2, 11, 1];
    assert(arcs@ =~= nvidia_attestation_oid_arcs());
    oid_from_arcs(arcs.as_slice())
}

/// The attestation report of one GPU and its certificate chain; each
/// certificate is kept as the complete DER element it is.
#[derive(Debug, Clone)]
pub struct NvidiaAttestationV1 {
    pub attestation_report: Vec<u8>,
    pub certificates: Vec<Vec<u8>>,
}

impl NvidiaAttestationV1 {
    /// The DER encoding.
    pub open spec fn der(&self) -> Seq<u8> {
        report_and_evidence_der(self.attestation_report@, views(self.certificates@))
    }

    /// The DER encoding; fails when it would exceed [`DER_MAX_LEN`] bytes.
    pub fn to_der(&self) -> (r: Result<Vec<u8>, Asn1Error>)
        ensures
            r is Ok <==> self.der().len() <= DER_MAX_LEN,
            r matches Ok(v) ==> v@ == self.der(),
    {
        let mut out: Vec<u8> = Vec::new();
        let certs = crate::sev::csr_formats::concat_vecs(&self.certificates);
        let mut inner: Vec<u8> = Vec::new();
        crate::der::push_tlv(&mut inner, 0x04, self.attestation_report.as_slice());
        crate::der::push_tlv(&mut inner, 0x30, certs.as_slice());
        crate::der::push_tlv(&mut out, 0x30, inner.as_slice());
        assert(out@ =~= self.der());
        if out.len() <= DER_MAX_LEN {
            Ok(out)
        } else {
            Err(Asn1Error)
        }
    }

    /// Reads the attestation from the whole of `b`: the structure above,
    /// with every certificate a document to the `der` crate.
    pub fn from_der(b: &[u8]) -> (r: Result<Self, Asn1Error>)
        ensures
            r matches Ok(x) ==> x.der() == b@ && all_elements(views(x.certificates@)) && (forall|
                i: int,
            | 0 <= i < x.certificates@.len() ==> der_document_accepts(#[trigger] x.certificates@[i]@)),
            forall|rep: Seq<u8>, cs: Seq<Seq<u8>>|
                all_elements(cs) && (forall|i: int| 0 <= i < cs.len() ==> der_document_accepts(#[trigger] cs[i]))
                    && #[trigger] report_and_evidence_der(rep, cs) == b@ ==> (r matches Ok(x)
                    && x.attestation_report@ == rep && views(x.certificates@) == cs),
    {
        let parsed = ReportAndEvidence::decode_der(b);
        match parsed {
            Ok(p) => {
                if !all_documents(&p.certificates) {
                    proof {
                        assert forall|rep: Seq<u8>, cs: Seq<Seq<u8>>|
                            all_elements(cs) && (forall|i: int| 0 <= i < cs.len() ==> der_document_accepts(#[trigger] cs[i]))
                                && #[trigger] report_and_evidence_der(rep, cs) == b@ implies false by {
                            assert(views(p.certificates@) == cs);
                            let k = choose|k: int| 0 <= k < p.certificates@.len() && !der_document_accepts(p.certificates@[k]@);
                            assert(cs[k] == p.certificates@[k]@);
                        }
                    }
                    return Err(Asn1Error);
                }
                Ok(NvidiaAttestationV1 { attestation_report: p.report, certificates: p.certificates })
            },
            Err(e) => Err(e),
        }
    }
}

} // verus!
