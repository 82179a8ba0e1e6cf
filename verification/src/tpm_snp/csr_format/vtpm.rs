//! The vTPM quote formats and the PCR-bound associated data.
//!
//! ```asn1
//! AmdAzureVtpmQuoteWithJwtV1 ::= SEQUENCE {
//!     quote                    AmdAzureVtpmQuoteV1,
//!     maa-jwt                  OCTET STRING
//! }
//! AmdAzureVtpmQuoteV1 ::= SEQUENCE {
//!     quote                    AmdVtpmQuoteV1,
//!     hcl-report-variable-data OCTET STRING,
//!     ephemeral-key            EphemeralKeyV1
//! }
//! EphemeralKeyV1 ::= SEQUENCE {
//!     encryption_key              OCTET STRING,
//!     certify_info                OCTET STRING,
//!     certify_info_signature      OCTET STRING
//! }
//! AmdVtpmQuoteV1 ::= SEQUENCE {
//!     amd                      AmdSevAttestationV1,
//!     tpm                      TpmQuoteV1,
//!     coprocessors             CoprocessorAttestationSetV1
//! }
//! TpmQuoteV1 ::= SEQUENCE {
//!     message                  OCTET STRING,
//!     signature                OCTET STRING,
//!     signature-algorithm      OCTET STRING,
//!     pcrs                     SEQUENCE OF OCTET STRING,
//!     uefi-event-log           OCTET STRING,
//!     certificates             SEQUENCE OF Certificate,
//!     ak-pub                   OCTET STRING
//! }
//! AmdSevAttestationV1 ::= SEQUENCE {
//!     attestation_report       OCTET STRING,
//!     certificates             SEQUENCE OF Certificate
//! }
//! AssociatedDataPCRV1 ::= SEQUENCE {
//!     join-token               OCTET STRING,
//!     spki                     OCTET STRING,
//!     coprocessors             CoprocessorAttestationSetV1,
//!     appconfig-id         [0] EXPLICIT OCTET STRING OPTIONAL
//! }
//! ```
//!
//! A certificate is held as the complete DER element it is.

use vstd::prelude::*;

use super::{octet_strings, set_der, CoprocessorAttestationSetV1};
use crate::der::{concat_all, copy_range, push_tlv, tlv, views, Asn1Error, DER_MAX_LEN};
use crate::sev::csr_formats::{concat_vecs, report_and_evidence_der};

verus! {

/// The `[0] EXPLICIT OCTET STRING OPTIONAL` field: nothing when absent.
pub open spec fn explicit0_octet(v: Option<Seq<u8>>) -> Seq<u8> {
    match v {
        Some(a) => tlv(0xa0, tlv(0x04, a)),
        None => Seq::empty(),
    }
}

/// Wraps `inner` into a SEQUENCE, failing when the result would exceed
/// [`DER_MAX_LEN`] bytes.
fn finish_sequence(inner: &[u8]) -> (r: Result<Vec<u8>, Asn1Error>)
    ensures
        r is Ok <==> tlv(0x30, inner@).len() <= DER_MAX_LEN,
        r matches Ok(v) ==> v@ == tlv(0x30, inner@),
{
    let mut out: Vec<u8> = Vec::new();
    push_tlv(&mut out, 0x30, inner);
    assert(out@ =~= tlv(0x30, inner@));
    if out.len() <= DER_MAX_LEN {
        Ok(out)
    } else {
        Err(Asn1Error)
    }
}

/// The keys MAA needs to encrypt the token it returns.
#[derive(Debug, Clone)]
pub struct EphemeralKeyV1 {
    /// TPM2B_PUBLIC structure defined in the TPM 2.0 specification.
    pub encryption_key: Vec<u8>,
    /// TPMS_ATTEST structure defined in the TPM 2.0 specification.
    pub certify_info: Vec<u8>,
    /// TPM2B_PUBLIC_KEY_RSA structure defined in the TPM 2.0 specification.
    pub certify_info_signature: Vec<u8>,
}

impl EphemeralKeyV1 {
    pub open spec fn der(&self) -> Seq<u8> {
        tlv(
            0x30,
            tlv(0x04, self.encryption_key@) + tlv(0x04, self.certify_info@) + tlv(
                0x04,
                self.certify_info_signature@,
            ),
        )
    }

    /// Appends the DER encoding to `out`.
    pub fn write(&self, out: &mut Vec<u8>)
        ensures
            final(out)@ == old(out)@ + self.der(),
    {
        let mut inner: Vec<u8> = Vec::new();
        push_tlv(&mut inner, 0x04, self.encryption_key.as_slice());
        push_tlv(&mut inner, 0x04, self.certify_info.as_slice());
        push_tlv(&mut inner, 0x04, self.certify_info_signature.as_slice());
        push_tlv(out, 0x30, inner.as_slice());
        assert(final(out)@ =~= old(out)@ + self.der());
    }

    /// The DER encoding; fails when it would exceed [`DER_MAX_LEN`] bytes.
    pub fn to_der(&self) -> (r: Result<Vec<u8>, Asn1Error>)
        ensures
            r is Ok <==> self.der().len() <= DER_MAX_LEN,
            r matches Ok(v) ==> v@ == self.der(),
    {
        let mut out: Vec<u8> = Vec::new();
        self.write(&mut out);
        assert(out@ =~= self.der());
        if out.len() <= DER_MAX_LEN {
            Ok(out)
        } else {
            Err(Asn1Error)
        }
    }
}

/// An AMD SEV-SNP report with the certificates that support it (at least
/// the VCEK and its chain of trust, the ASK and the ARK).
#[derive(Debug, Clone)]
pub struct AmdSevAttestationV1 {
    pub attestation_report: Vec<u8>,
    pub certificates: Vec<Vec<u8>>,
}

impl AmdSevAttestationV1 {
    pub open spec fn der(&self) -> Seq<u8> {
        report_and_evidence_der(self.attestation_report@, views(self.certificates@))
    }

    /// Appends the DER encoding to `out`.
    pub fn write(&self, out: &mut Vec<u8>)
        ensures
            final(out)@ == old(out)@ + self.der(),
    {
        let certs = concat_vecs(&self.certificates);
        let mut inner: Vec<u8> = Vec::new();
        push_tlv(&mut inner, 0x04, self.attestation_report.as_slice());
        push_tlv(&mut inner, 0x30, certs.as_slice());
        push_tlv(out, 0x30, inner.as_slice());
        assert(final(out)@ =~= old(out)@ + self.der());
    }

    /// The DER encoding; fails when it would exceed [`DER_MAX_LEN`] bytes.
    pub fn to_der(&self) -> (r: Result<Vec<u8>, Asn1Error>)
        ensures
            r is Ok <==> self.der().len() <= DER_MAX_LEN,
            r matches Ok(v) ==> v@ == self.der(),
    {
        let mut out: Vec<u8> = Vec::new();
        self.write(&mut out);
        assert(out@ =~= self.der());
        if out.len() <= DER_MAX_LEN {
            Ok(out)
        } else {
            Err(Asn1Error)
        }
    }
}

/// A TPM quote, the PCR values it covers, and what supports it.
#[derive(Debug, Clone)]
pub struct TpmQuoteV1 {
    /// TPMS_ATTEST structure defined in the TPM 2.0 specification.
    pub message: Vec<u8>,
    /// TPMT_SIGNATURE structure defined in the TPM 2.0 specification.
    pub signature: Vec<u8>,
    /// TPMT_SIG_SCHEME structure defined in the TPM 2.0 specification.
    pub signature_algorithm: Vec<u8>,
    /// The PCR digests, in the order of the quote's PCR selection.
    pub pcrs: Vec<Vec<u8>>,
    /// The UEFI event log in binary form.
    pub uefi_event_log: Vec<u8>,
    /// The AK certificate first, then what supports it.
    pub certificates: Vec<Vec<u8>>,
    /// TPM2B_PUBLIC structure defined in the TPM 2.0 specification.
    pub ak_pub: Vec<u8>,
}

impl TpmQuoteV1 {
    pub open spec fn der(&self) -> Seq<u8> {
        tlv(
            0x30,
            tlv(0x04, self.message@) + tlv(0x04, self.signature@) + tlv(0x04, self.signature_algorithm@)
                + tlv(0x30, concat_all(octet_strings(views(self.pcrs@)))) + tlv(0x04, self.uefi_event_log@)
                + tlv(0x30, concat_all(views(self.certificates@))) + tlv(0x04, self.ak_pub@),
        )
    }

    /// Appends the DER encoding to `out`.
    pub fn write(&self, out: &mut Vec<u8>)
        ensures
            final(out)@ == old(out)@ + self.der(),
    {
        let mut pcrs: Vec<u8> = Vec::new();
        let mut i: usize = 0;
        while i < self.pcrs.len()
            invariant
                i <= self.pcrs@.len(),
                pcrs@ == concat_all(octet_strings(views(self.pcrs@.subrange(0, i as int)))),
            decreases self.pcrs@.len() - i,
        {
            proof {
                crate::der::lemma_concat_push(
                    octet_strings(views(self.pcrs@.subrange(0, i as int))),
                    tlv(0x04, self.pcrs@[i as int]@),
                );
                assert(octet_strings(views(self.pcrs@.subrange(0, i + 1))) =~= octet_strings(
                    views(self.pcrs@.subrange(0, i as int)),
                ).push(tlv(0x04, self.pcrs@[i as int]@)));
            }
            push_tlv(&mut pcrs, 0x04, self.pcrs[i].as_slice());
            i = i + 1;
        }
        assert(self.pcrs@.subrange(0, self.pcrs@.len() as int) =~= self.pcrs@);
        let certs = concat_vecs(&self.certificates);
        let mut inner: Vec<u8> = Vec::new();
        push_tlv(&mut inner, 0x04, self.message.as_slice());
        push_tlv(&mut inner, 0x04, self.signature.as_slice());
        push_tlv(&mut inner, 0x04, self.signature_algorithm.as_slice());
        push_tlv(&mut inner, 0x30, pcrs.as_slice());
        push_tlv(&mut inner, 0x04, self.uefi_event_log.as_slice());
        push_tlv(&mut inner, 0x30, certs.as_slice());
        push_tlv(&mut inner, 0x04, self.ak_pub.as_slice());
        push_tlv(out, 0x30, inner.as_slice());
        assert(final(out)@ =~= old(out)@ + self.der());
    }

    /// The DER encoding; fails when it would exceed [`DER_MAX_LEN`] bytes.
    pub fn to_der(&self) -> (r: Result<Vec<u8>, Asn1Error>)
        ensures
            r is Ok <==> self.der().len() <= DER_MAX_LEN,
            r matches Ok(v) ==> v@ == self.der(),
    {
        let mut out: Vec<u8> = Vec::new();
        self.write(&mut out);
        assert(out@ =~= self.der());
        if out.len() <= DER_MAX_LEN {
            Ok(out)
        } else {
            Err(Asn1Error)
        }
    }
}

/// A vTPM quote whose attestation key is attested by the AMD report, with
/// the coprocessor attestations.
#[derive(Debug)]
pub struct AmdVtpmQuoteV1 {
    pub amd: AmdSevAttestationV1,
    pub quote: TpmQuoteV1,
    pub coprocessors: CoprocessorAttestationSetV1,
}

impl AmdVtpmQuoteV1 {
    pub open spec fn der(&self) -> Seq<u8> {
        tlv(0x30, self.amd.der() + self.quote.der() + set_der(self.coprocessors.elements()))
    }

    /// Appends the DER encoding to `out`.
    pub fn write(&self, out: &mut Vec<u8>)
        ensures
            final(out)@ == old(out)@ + self.der(),
    {
        let mut inner: Vec<u8> = Vec::new();
        self.amd.write(&mut inner);
        self.quote.write(&mut inner);
        let cop = self.coprocessors.encode();
        crate::le::push_bytes(&mut inner, cop.as_slice());
        push_tlv(out, 0x30, inner.as_slice());
        assert(final(out)@ =~= old(out)@ + self.der());
    }

    /// The DER encoding; fails when it would exceed [`DER_MAX_LEN`] bytes.
    pub fn to_der(&self) -> (r: Result<Vec<u8>, Asn1Error>)
        ensures
            r is Ok <==> self.der().len() <= DER_MAX_LEN,
            r matches Ok(v) ==> v@ == self.der(),
    {
        let mut out: Vec<u8> = Vec::new();
        self.write(&mut out);
        assert(out@ =~= self.der());
        if out.len() <= DER_MAX_LEN {
            Ok(out)
        } else {
            Err(Asn1Error)
        }
    }
}

/// A vTPM quote as Azure presents it, with the HCL report's variable data
/// and the ephemeral key for MAA.
#[derive(Debug)]
pub struct AmdAzureVtpmQuoteV1 {
    pub quote: AmdVtpmQuoteV1,
    /// The variable data of the HCL report.
    pub hcl_report_variable_data: Vec<u8>,
    pub ephemeral_key: EphemeralKeyV1,
}

impl AmdAzureVtpmQuoteV1 {
    pub open spec fn der(&self) -> Seq<u8> {
        tlv(
            0x30,
            self.quote.der() + tlv(0x04, self.hcl_report_variable_data@) + self.ephemeral_key.der(),
        )
    }

    /// Appends the DER encoding to `out`.
    pub fn write(&self, out: &mut Vec<u8>)
        ensures
            final(out)@ == old(out)@ + self.der(),
    {
        let mut inner: Vec<u8> = Vec::new();
        self.quote.write(&mut inner);
        push_tlv(&mut inner, 0x04, self.hcl_report_variable_data.as_slice());
        self.ephemeral_key.write(&mut inner);
        push_tlv(out, 0x30, inner.as_slice());
        assert(final(out)@ =~= old(out)@ + self.der());
    }

    /// The DER encoding; fails when it would exceed [`DER_MAX_LEN`] bytes.
    pub fn to_der(&self) -> (r: Result<Vec<u8>, Asn1Error>)
        ensures
            r is Ok <==> self.der().len() <= DER_MAX_LEN,
            r matches Ok(v) ==> v@ == self.der(),
    {
        let mut out: Vec<u8> = Vec::new();
        self.write(&mut out);
        assert(out@ =~= self.der());
        if out.len() <= DER_MAX_LEN {
            Ok(out)
        } else {
            Err(Asn1Error)
        }
    }
}

/// The Azure vTPM quote with the JSON Web Token that MAA returned for it.
#[derive(Debug)]
pub struct AmdAzureVtpmQuoteWithJwtV1 {
    pub quote: AmdAzureVtpmQuoteV1,
    /// The token from the MAA endpoint, after decryption via the vTPM.
    pub maa_jwt: Vec<u8>,
}

impl AmdAzureVtpmQuoteWithJwtV1 {
    pub open spec fn der(&self) -> Seq<u8> {
        tlv(0x30, self.quote.der() + tlv(0x04, self.maa_jwt@))
    }

    /// The DER encoding; fails when it would exceed [`DER_MAX_LEN`] bytes.
    pub fn to_der(&self) -> (r: Result<Vec<u8>, Asn1Error>)
        ensures
            r is Ok <==> self.der().len() <= DER_MAX_LEN,
            r matches Ok(v) ==> v@ == self.der(),
    {
        let mut inner: Vec<u8> = Vec::new();
        self.quote.write(&mut inner);
        push_tlv(&mut inner, 0x04, self.maa_jwt.as_slice());
        assert(inner@ =~= self.quote.der() + tlv(0x04, self.maa_jwt@));
        finish_sequence(inner.as_slice())
    }
}

/// The data bound into the PCRs: the join token, the hash of the CSR's
/// public key, the coprocessor attestations and, with workflows, the
/// application configuration.
#[derive(Debug)]
pub struct AssociatedDataPCRV1 {
    /// 64 bytes.
    pub join_token: Vec<u8>,
    /// 32 bytes: the SHA-256 of the CSR's public key in DER.
    pub spki: Vec<u8>,
    pub coprocessors: CoprocessorAttestationSetV1,
    /// 32 bytes when workflows are used.
    pub appconfig_id: Option<Vec<u8>>,
}

/// The contents of an optional byte string.
pub open spec fn opt_view(v: Option<Vec<u8>>) -> Option<Seq<u8>> {
    match v {
        Some(a) => Some(a@),
        None => None,
    }
}

impl AssociatedDataPCRV1 {
    pub open spec fn der(&self) -> Seq<u8> {
        tlv(
            0x30,
            tlv(0x04, self.join_token@) + tlv(0x04, self.spki@) + set_der(self.coprocessors.elements())
                + explicit0_octet(opt_view(self.appconfig_id)),
        )
    }

    /// The associated data without an application configuration. Fails when
    /// the join token or the key hash is too long for an OCTET STRING.
    pub fn new(join_token: &[u8], spki: &[u8], coprocessors: CoprocessorAttestationSetV1) -> (r: Result<
        Self,
        Asn1Error,
    >)
        ensures
            r is Ok <==> join_token@.len() <= DER_MAX_LEN && spki@.len() <= DER_MAX_LEN,
            r matches Ok(a) ==> a.join_token@ == join_token@ && a.spki@ == spki@
                && a.coprocessors.elements() == coprocessors.elements() && a.appconfig_id is None,
    {
        if join_token.len() > DER_MAX_LEN || spki.len() > DER_MAX_LEN {
            return Err(Asn1Error);
        }
        Ok(AssociatedDataPCRV1 {
            join_token: copy_range(join_token, 0, join_token.len()),
            spki: copy_range(spki, 0, spki.len()),
            coprocessors,
            appconfig_id: None,
        })
    }

    /// The DER encoding; fails when it would exceed [`DER_MAX_LEN`] bytes.
    pub fn to_der(&self) -> (r: Result<Vec<u8>, Asn1Error>)
        ensures
            r is Ok <==> self.der().len() <= DER_MAX_LEN,
            r matches Ok(v) ==> v@ == self.der(),
    {
        let mut inner: Vec<u8> = Vec::new();
        push_tlv(&mut inner, 0x04, self.join_token.as_slice());
        push_tlv(&mut inner, 0x04, self.spki.as_slice());
        let cop = self.coprocessors.encode();
        crate::le::push_bytes(&mut inner, cop.as_slice());
        match &self.appconfig_id {
            Some(a) => {
                let mut o: Vec<u8> = Vec::new();
                push_tlv(&mut o, 0x04, a.as_slice());
                push_tlv(&mut inner, 0xa0, o.as_slice());
            },
            None => {},
        }
        assert(inner@ =~= tlv(0x04, self.join_token@) + tlv(0x04, self.spki@) + set_der(
            self.coprocessors.elements(),
        ) + explicit0_octet(opt_view(self.appconfig_id)));
        finish_sequence(inner.as_slice())
    }
}

} // verus!
