//! The parts of local attestation that the client decides: what goes into
//! the subject and attributes of the local attestation CSR, and the
//! quoting enclave certificates that go into the application CSR.

use vstd::prelude::*;

use super::error::Error;
use super::{BaremetalSevSnp, BaremetalTdx};
use crate::csr::Attribute;
use crate::der::{push_tlv, tlv, views, DER_MAX_LEN};
use crate::document::{der_document_accepts, read_document};
use crate::tdx::guest::PackedTdxReportGuest;
use crate::tdx::{measurements_der, tee_report_mac_oid_arcs, tdx_report_measurements_oid_arcs};
use crate::text::{starts_with_context, with_detail};
use crate::nvidia::csr_format::NvidiaAttestationV1;
use crate::tpm_snp::csr_format::baremetal_snp::{
    nvidia_coprocessor, nvidia_encodable, AmdSevAttestationBaremetalV1, FqpeCerts,
};
use crate::tpm_snp::csr_format::{CoprocessorAttestationSetV1, CoprocessorModel};
use crate::tpm_snp::pkix_compat::baremetal_snp::{appconfig_id_oid, baremetal_snp_oid};
use crate::tpm_snp::pkix_compat::fortanix_arcs;

verus! {

/// An entry of a CSR subject: an OID, as arcs, and the complete DER element
/// it names.
#[derive(Debug, Clone)]
pub struct SubjectEntry {
    pub oid: Vec<u64>,
    pub value: Vec<u8>,
}

/// The models of subject entries: (OID arcs, element).
pub open spec fn entries(s: Seq<SubjectEntry>) -> Seq<(Seq<u64>, Seq<u8>)> {
    s.map_values(|e: SubjectEntry| (e.oid@, e.value@))
}

/// The subject entries of the local attestation CSR: the evidence under
/// its OID, then the application configuration id, when there is one, as
/// an OCTET STRING.
pub open spec fn subject_of(
    evidence_oid: Seq<u64>,
    evidence: Seq<u8>,
    appconfig_id: Option<Seq<u8>>,
) -> Seq<(Seq<u64>, Seq<u8>)> {
    match appconfig_id {
        Some(id) => seq![(evidence_oid, evidence), (fortanix_arcs(seq![1u64, 3, 4]), tlv(0x04, id))],
        None => seq![(evidence_oid, evidence)],
    }
}

/// The contents of an optional borrowed byte string.
pub open spec fn opt_id(v: Option<&[u8]>) -> Option<Seq<u8>> {
    match v {
        Some(a) => Some(a@),
        None => None,
    }
}

/// The conditions under which the application configuration id can be put
/// in a subject: it fits an OCTET STRING, and so does its encoding.
pub open spec fn appconfig_encodable(appconfig_id: Option<&[u8]>) -> bool {
    appconfig_id matches Some(id) ==> tlv(0x04, id@).len() <= DER_MAX_LEN
}

/// The subject entries for `evidence` under `oid` and the configuration
/// id: an OCTET STRING too long to be one is an application certificate
/// error, an encoding too long to be written is a conversion error.
fn subject_entries(oid: Vec<u64>, evidence: Vec<u8>, appconfig_id: Option<&[u8]>) -> (r: Result<
    Vec<SubjectEntry>,
    Error,
>)
    ensures
        r is Ok <==> appconfig_encodable(appconfig_id),
        r matches Ok(s) ==> entries(s@) == subject_of(oid@, evidence@, opt_id(appconfig_id)),
        r matches Err(e) ==> match appconfig_id {
            Some(id) => if id@.len() > DER_MAX_LEN {
                e matches Error::AppCertErr(m) && starts_with_context(
                    m@,
                    "failed to create appconfig ID octet string"@,
                )
            } else {
                e matches Error::ConversionErr(m) && starts_with_context(
                    m@,
                    "failed to convert appconfig ID to der"@,
                )
            },
            None => false,
        },
{
    let mut out: Vec<SubjectEntry> = Vec::new();
    out.push(SubjectEntry { oid, value: evidence });
    match appconfig_id {
        Some(id) => {
            if let Err(e) = crate::document::octet_string_check(id) {
                proof {
                    reveal_strlit("failed to create appconfig ID octet string");
                }
                return Err(
                    Error::AppCertErr(
                        crate::text::join_context("failed to create appconfig ID octet string", e.as_str()),
                    ),
                );
            }
            let mut value: Vec<u8> = Vec::new();
            push_tlv(&mut value, 0x04, id);
            assert(value@ =~= tlv(0x04, id@));
            if value.len() > DER_MAX_LEN {
                proof {
                    reveal_strlit("failed to convert appconfig ID to der");
                }
                return Err(
                    Error::ConversionErr(
                        crate::text::join_context("failed to convert appconfig ID to der", crate::document::length_overflow_text().as_str()),
                    ),
                );
            }
            out.push(SubjectEntry { oid: appconfig_id_oid(), value });
            assert(entries(out@) =~= subject_of(oid@, evidence@, opt_id(appconfig_id)));
        },
        None => {
            assert(entries(out@) =~= subject_of(oid@, evidence@, opt_id(appconfig_id)));
        },
    }
    Ok(out)
}

impl BaremetalSevSnp {
    /// The subject of the local attestation CSR of a bare-metal SEV-SNP
    /// guest: its evidence under the bare-metal OID, then the configuration
    /// id.
    pub fn local_attestation_subject(
        attestation_report: &AmdSevAttestationBaremetalV1,
        appconfig_id: Option<&[u8]>,
    ) -> (r: Result<Vec<SubjectEntry>, Error>)
        ensures
            r is Ok <==> attestation_report.der().len() <= DER_MAX_LEN && appconfig_encodable(appconfig_id),
            r matches Ok(s) ==> entries(s@) == subject_of(
                fortanix_arcs(seq![2u64, 2, 14]),
                attestation_report.der(),
                opt_id(appconfig_id),
            ),
            attestation_report.der().len() > DER_MAX_LEN ==> (r matches Err(Error::ConversionErr(m))
                && starts_with_context(m@, "failed to convert attestation report to der"@)),
    {
        let der = match attestation_report.to_der() {
            Ok(d) => d,
            Err(_) => {
                proof {
                    reveal_strlit("failed to convert attestation report to der");
                }
                return Err(
                    Error::ConversionErr(
                        crate::text::join_context("failed to convert attestation report to der", crate::document::length_overflow_text().as_str()),
                    ),
                );
            },
        };
        subject_entries(baremetal_snp_oid(), der, appconfig_id)
    }
}

impl BaremetalTdx {
    /// The subject and attributes of the local attestation CSR of a TDX
    /// guest: the measurements of its report under their OID, then the
    /// configuration id; and the report MAC as the one attribute.
    pub fn local_attestation_request(packed: &PackedTdxReportGuest, appconfig_id: Option<&[u8]>) -> (r: Result<
        (Vec<SubjectEntry>, Vec<Attribute>),
        Error,
    >)
        ensures
            r is Ok <==> appconfig_encodable(appconfig_id),
            r matches Ok((s, attrs)) ==> {
                let rep = packed.td_report.bytes();
                &&& entries(s@) == subject_of(
                    tdx_report_measurements_oid_arcs(),
                    measurements_der(
                        crate::tdx::report_version(rep),
                        rep.subrange(256, 495),
                        rep.subrange(512, 1024),
                        packed.coprocessors@,
                    ),
                    opt_id(appconfig_id),
                )
                &&& attrs@.len() == 1
                &&& attrs@[0].oid@ == tee_report_mac_oid_arcs()
                &&& views(attrs@[0].value@) == seq![tlv(0x04, rep.subrange(0, 256))]
            },
    {
        let (mac, measurements) = match packed.build_decoupled_report() {
            Ok(p) => p,
            Err(e) => {
                return Err(Error::TdxAttestationErr(e));
            },
        };
        let tdx_report_der = measurements.to_der();
        let subject = subject_entries(crate::tdx::TdxReportMeasurements::oid(), tdx_report_der, appconfig_id)?;
        let mut attributes: Vec<Attribute> = Vec::new();
        attributes.push(mac.to_attribute());
        Ok((subject, attributes))
    }
}

/// The name of what `pkix::pem::pem_to_der` returns for `pem` with the
/// certificate guard lines.
pub uninterp spec fn pem_certificate_der(pem: Seq<char>) -> Option<Seq<u8>>;

/// The contents of an optional byte vector.
pub open spec fn opt_vec(v: Option<Vec<u8>>) -> Option<Seq<u8>> {
    match v {
        Some(a) => Some(a@),
        None => None,
    }
}

/// Calls `pkix::pem::pem_to_der` with the certificate guard lines. Claimed:
/// the result is the named function of `pem`.
#[verifier::external_body]
pub(crate) fn certificate_pem_to_der(pem: &str) -> (r: Option<Vec<u8>>)
    ensures
        opt_vec(r) == pem_certificate_der(pem@),
{
    pkix::pem::pem_to_der(pem, Some(pkix::pem::PEM_CERTIFICATE))
}

/// The quoting enclave certificates, from the attestation and node
/// certificates in DER (`None` where the PEM did not convert), as the
/// attribute of the application CSR.
pub fn fqpe_attribute_from_der(attestation_cert_der: Option<Vec<u8>>, node_cert_der: Option<Vec<u8>>) -> (r: Result<
    Attribute,
    Error,
>)
    ensures
        match (attestation_cert_der, node_cert_der) {
            (None, _) => r matches Err(Error::ConversionErr(m)) && m@
                == "failed to convert attestation certificate from pem to der format"@,
            (Some(_), None) => r matches Err(Error::ConversionErr(m)) && m@
                == "failed to convert node certificate from pem to der format"@,
            (Some(a), Some(n)) => {
                let der = tlv(0x30, tlv(0x30, a@ + n@));
                &&& (r is Ok <==> der_document_accepts(a@) && der_document_accepts(n@) && der.len()
                    <= DER_MAX_LEN)
                &&& (r matches Ok(attr) ==> attr.oid@ == fortanix_arcs(seq![2u64, 2, 1]) && views(
                    attr.value@,
                ) == seq![der])
                &&& (!der_document_accepts(a@) || !der_document_accepts(n@) ==> (r matches Err(
                    Error::AttestErr(m),
                ) && starts_with_context(m@, "failed to read fqpe certs"@)))
            },
        },
{
    let attestation_der = match attestation_cert_der {
        Some(d) => d,
        None => {
            return Err(
                Error::ConversionErr(
                    "failed to convert attestation certificate from pem to der format".to_owned(),
                ),
            );
        },
    };
    let node_der = match node_cert_der {
        Some(d) => d,
        None => {
            return Err(
                Error::ConversionErr("failed to convert node certificate from pem to der format".to_owned()),
            );
        },
    };
    proof {
        reveal_strlit("failed to read fqpe certs");
        reveal_strlit("failed to read attributes for fqpe certs");
    }
    match read_document(attestation_der.as_slice()) {
        Ok(()) => {},
        Err(e) => {
            return Err(Error::AttestErr(crate::text::join_context("failed to read fqpe certs", e.as_str())));
        },
    }
    match read_document(node_der.as_slice()) {
        Ok(()) => {},
        Err(e) => {
            return Err(Error::AttestErr(crate::text::join_context("failed to read fqpe certs", e.as_str())));
        },
    }
    let ghost a = attestation_der@;
    let ghost n = node_der@;
    let mut certificates: Vec<Vec<u8>> = Vec::new();
    certificates.push(attestation_der);
    certificates.push(node_der);
    let fqpe = FqpeCerts { certificates };
    proof {
        assert(views(fqpe.certificates@) =~= seq![a, n]);
        assert(crate::der::concat_all(seq![a, n]) =~= a + n) by {
            reveal_with_fuel(crate::der::concat_all, 3);
        }
    }
    match fqpe.to_attribute() {
        Ok(attr) => Ok(attr),
        Err(_) => Err(Error::AttestErr(crate::text::join_context("failed to read attributes for fqpe certs", crate::document::length_overflow_text().as_str()))),
    }
}

/// The attribute of the quoting enclave certificates for the application
/// CSR, from the local attestation response's attestation and node
/// certificates in PEM.
pub fn fqpe_attribute(attestation_certificate: Option<String>, node_certificate: Option<String>) -> (r: Result<
    Attribute,
    Error,
>)
    ensures
        match (attestation_certificate, node_certificate) {
            (None, _) => r matches Err(Error::AttestErr(m)) && m@ == "failed to obtain attestation certificate"@,
            (Some(_), None) => r matches Err(Error::AttestErr(m)) && m@ == "failed to get node certificate"@,
            (Some(a), Some(n)) => match (pem_certificate_der(a@), pem_certificate_der(n@)) {
                (None, _) => r matches Err(Error::ConversionErr(m)) && m@
                    == "failed to convert attestation certificate from pem to der format"@,
                (Some(_), None) => r matches Err(Error::ConversionErr(m)) && m@
                    == "failed to convert node certificate from pem to der format"@,
                (Some(ab), Some(nb)) => {
                    let der = tlv(0x30, tlv(0x30, ab + nb));
                    &&& (r is Ok <==> der_document_accepts(ab) && der_document_accepts(nb) && der.len()
                        <= DER_MAX_LEN)
                    &&& (r matches Ok(attr) ==> attr.oid@ == fortanix_arcs(seq![2u64, 2, 1]) && views(
                        attr.value@,
                    ) == seq![der])
                    &&& (!der_document_accepts(ab) || !der_document_accepts(nb) ==> (r matches Err(
                        Error::AttestErr(m),
                    ) && starts_with_context(m@, "failed to read fqpe certs"@)))
                },
            },
        },
{
    let attestation_cert = match attestation_certificate {
        Some(c) => c,
        None => {
            return Err(Error::AttestErr("failed to obtain attestation certificate".to_owned()));
        },
    };
    let node_cert = match node_certificate {
        Some(c) => c,
        None => {
            return Err(Error::AttestErr("failed to get node certificate".to_owned()));
        },
    };
    let attestation_der = certificate_pem_to_der(attestation_cert.as_str());
    let node_der = certificate_pem_to_der(node_cert.as_str());
    fqpe_attribute_from_der(attestation_der, node_der)
}

impl BaremetalTdx {
    /// The coprocessor attestations of a TDX guest, from the GPU
    /// attestations that could be collected (`None` when there were none).
    pub fn gpu_coprocessors(gpu: Option<Vec<NvidiaAttestationV1>>) -> (r: Result<CoprocessorAttestationSetV1, Error>)
        ensures
            r is Ok <==> (gpu matches Some(v) ==> nvidia_encodable(v@)),
            r matches Ok(s) ==> s.elements() == (match gpu {
                Some(v) => seq![nvidia_coprocessor(v@)],
                None => Seq::<CoprocessorModel>::empty(),
            }),
            r matches Err(e) ==> e matches Error::ConversionErr(m) && starts_with_context(
                m@,
                "failed to get CoprocessorAttestationV1 from gpu evidence"@,
            ),
    {
        match CoprocessorAttestationSetV1::from_gpu_attestations(gpu) {
            Ok(s) => Ok(s),
            Err(_) => {
                proof {
                    reveal_strlit("failed to get CoprocessorAttestationV1 from gpu evidence");
                }
                Err(Error::ConversionErr(crate::text::join_context("failed to get CoprocessorAttestationV1 from gpu evidence", crate::document::length_overflow_text().as_str())))
            },
        }
    }
}

} // verus!
