//! The vTPM evidence as CSR attributes and extensions, and the conversion
//! between the two owned forms of an AMD SEV-SNP attestation.

pub mod baremetal_snp;

use vstd::prelude::*;

use super::csr_format::vtpm::{AmdAzureVtpmQuoteWithJwtV1, AmdSevAttestationV1};
use crate::csr::{Attribute, Extension};
use crate::der::{views, Asn1Error, DER_MAX_LEN};
use crate::document::{der_sequence_document_accepts, read_sequence_document};
use crate::sev::csr_formats::ReportAndEvidence;

verus! {

/// The arcs of an OID under the Fortanix arc 1.3.6.1.4.1.49690.
pub open spec fn fortanix_arcs(tail: Seq<u64>) -> Seq<u64> {
    seq![1u64, 3, 6, 1, 4, 1, 49690] + tail
}

/// The OID under the Fortanix arc with the given last arcs.
pub fn fortanix_oid(tail: &[u64]) -> (r: Vec<u64>)
    ensures
        r@ == fortanix_arcs(tail@),
{
    let mut r = vec![1u64, 3, 6, 1, 4, 1, 49690];
    let mut i: usize = 0;
    while i < tail.len()
        invariant
            i <= tail@.len(),
            r@ == seq![1u64, 3, 6, 1, 4, 1, 49690] + tail@.subrange(0, i as int),
        decreases tail@.len() - i,
    {
        r.push(tail[i]);
        assert(r@ =~= seq![1u64, 3, 6, 1, 4, 1, 49690] + tail@.subrange(0, i + 1));
        i = i + 1;
    }
    assert(tail@.subrange(0, tail@.len() as int) =~= tail@);
    r
}

/// The OID that names `AmdAzureVtpmQuoteWithJwtV1`: 1.3.6.1.4.1.49690.2.2.8.
pub fn tpm_snp_oid() -> (r: Vec<u64>)
    ensures
        r@ == fortanix_arcs(seq![2u64, 2, 8]),
{
    let t = [2u64, 2, 8];
    assert(t@ =~= seq![2u64, 2, 8]);
    fortanix_oid(&t)
}

/// Every certificate of `certs` is an owned SEQUENCE document to `der`.
pub open spec fn all_sequence_documents(certs: Seq<Seq<u8>>) -> bool {
    forall|i: int| 0 <= i < certs.len() ==> der_sequence_document_accepts(#[trigger] certs[i])
}

/// The conversion from the form with any certificate elements: the report
/// must fit an OCTET STRING and every certificate must be an owned
/// SEQUENCE document.
pub open spec fn amd_from_pkix(value: ReportAndEvidence) -> Result<AmdSevAttestationV1, Asn1Error> {
    if value.report@.len() <= DER_MAX_LEN && all_sequence_documents(views(value.certificates@)) {
        Ok(AmdSevAttestationV1 { attestation_report: value.report, certificates: value.certificates })
    } else {
        Err(Asn1Error)
    }
}

impl TryFrom<ReportAndEvidence> for AmdSevAttestationV1 {
    type Error = Asn1Error;

    /// Moves the report and certificates over, without copying them.
    fn try_from(value: ReportAndEvidence) -> (r: Result<Self, Self::Error>) {
        if value.report.len() > DER_MAX_LEN {
            return Err(Asn1Error);
        }
        let mut i: usize = 0;
        while i < value.certificates.len()
            invariant
                i <= value.certificates@.len(),
                forall|j: int|
                    0 <= j < i ==> der_sequence_document_accepts(#[trigger] value.certificates@[j]@),
            decreases value.certificates@.len() - i,
        {
            if !read_sequence_document(value.certificates[i].as_slice()) {
                assert(views(value.certificates@)[i as int] == value.certificates@[i as int]@);
                return Err(Asn1Error);
            }
            i = i + 1;
        }
        assert(all_sequence_documents(views(value.certificates@)));
        Ok(AmdSevAttestationV1 { attestation_report: value.report, certificates: value.certificates })
    }
}

impl vstd::std_specs::convert::TryFromSpecImpl<ReportAndEvidence> for AmdSevAttestationV1 {
    open spec fn obeys_try_from_spec() -> bool {
        true
    }

    open spec fn try_from_spec(v: ReportAndEvidence) -> Result<Self, Self::Error> {
        amd_from_pkix(v)
    }
}

impl From<AmdSevAttestationV1> for ReportAndEvidence {
    /// Moves the report and certificates over, without copying them.
    fn from(value: AmdSevAttestationV1) -> (r: Self) {
        ReportAndEvidence { report: value.attestation_report, certificates: value.certificates }
    }
}

impl vstd::std_specs::convert::FromSpecImpl<AmdSevAttestationV1> for ReportAndEvidence {
    open spec fn obeys_from_spec() -> bool {
        true
    }

    open spec fn from_spec(v: AmdSevAttestationV1) -> Self {
        ReportAndEvidence { report: v.attestation_report, certificates: v.certificates }
    }
}

impl AmdAzureVtpmQuoteWithJwtV1 {
    /// The quote as a CSR attribute named by [`tpm_snp_oid`].
    pub fn to_attribute(&self) -> (r: Result<Attribute, Asn1Error>)
        ensures
            r is Ok <==> self.der().len() <= DER_MAX_LEN,
            r matches Ok(a) ==> a.oid@ == fortanix_arcs(seq![2u64, 2, 8]) && views(a.value@) == seq![
                self.der(),
            ],
    {
        let der = self.to_der()?;
        Ok(Attribute::single(tpm_snp_oid(), der))
    }

    /// The quote as a non-critical extension named by [`tpm_snp_oid`].
    pub fn to_extension(&self) -> (r: Result<Extension, Asn1Error>)
        ensures
            r is Ok <==> self.der().len() <= DER_MAX_LEN,
            r matches Ok(e) ==> e.oid@ == fortanix_arcs(seq![2u64, 2, 8]) && !e.critical && e.value@
                == self.der(),
    {
        let der = self.to_der()?;
        Ok(Extension::evidence(tpm_snp_oid(), der))
    }
}

} // verus!
