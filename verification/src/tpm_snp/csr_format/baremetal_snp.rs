//! The evidence of a bare-metal AMD SEV-SNP guest and the data its report
//! binds.
//!
//! ```asn1
//! AmdSevAttestationBaremetalV1 ::= SEQUENCE {
//!     attestation_report       OCTET STRING,
//!     coprocessors             CoprocessorAttestationSetV1
//! }
//! ReportDataV1 ::= SEQUENCE {
//!     spki                     OCTET STRING,
//!     coprocessors             CoprocessorAttestationSetV1,
//!     appconfig-id         [0] EXPLICIT OCTET STRING OPTIONAL
//! }
//! FqpeCerts ::= SEQUENCE {
//!     certificates             SEQUENCE OF Certificate
//! }
//! ```

use vstd::prelude::*;

use super::vtpm::{explicit0_octet, opt_view};
use super::decode::oids_accepted;
use super::{
    distinct_attestations, encodings, set_der, sorted_by_der, CoprocessorAttestationSetV1,
    CoprocessorAttestationV1, CoprocessorModel,
};
use crate::der::{
    all_elements, concat_all, copy_range, expect_tlv, lemma_pair_layout, lemma_split, lemma_tlv_content,
    push_tlv, read_elements, read_prefixed, tlv, views, Asn1Error, DER_MAX_LEN,
};
use crate::document::{all_documents, der_document_accepts};
use crate::nvidia::csr_format::{nvidia_attestation_oid, nvidia_attestation_oid_content, NvidiaAttestationV1};
use crate::sev::csr_formats::{concat_vecs, report_and_evidence_der};
use crate::le::u32_at;
use crate::sev::report::{is_vmpl_code, Report, REPORT_SIZE};
use crate::text::{starts_with_context, with_detail};

verus! {

/// The report of a bare-metal SEV-SNP guest, in its wire encoding, with the
/// coprocessor attestations bound into its report data.
#[derive(Debug)]
pub struct AmdSevAttestationBaremetalV1 {
    pub attestation_report: Vec<u8>,
    pub coprocessors: CoprocessorAttestationSetV1,
}

impl AmdSevAttestationBaremetalV1 {
    /// The DER encoding.
    pub open spec fn der(&self) -> Seq<u8> {
        tlv(0x30, tlv(0x04, self.attestation_report@) + set_der(self.coprocessors.elements()))
    }

    /// The evidence made of `report` and the attestations bound into it.
    pub fn from_report(report: &Report, coprocessors: CoprocessorAttestationSetV1) -> (e: Self)
        ensures
            e.attestation_report@ == report.wire(),
            e.coprocessors.elements() == coprocessors.elements(),
    {
        AmdSevAttestationBaremetalV1 { attestation_report: report.as_slice(), coprocessors }
    }

    /// The DER encoding; fails when it would exceed [`DER_MAX_LEN`] bytes.
    pub fn to_der(&self) -> (r: Result<Vec<u8>, Asn1Error>)
        ensures
            r is Ok <==> self.der().len() <= DER_MAX_LEN,
            r matches Ok(v) ==> v@ == self.der(),
    {
        let mut inner: Vec<u8> = Vec::new();
        push_tlv(&mut inner, 0x04, self.attestation_report.as_slice());
        let cop = self.coprocessors.encode();
        crate::le::push_bytes(&mut inner, cop.as_slice());
        let mut out: Vec<u8> = Vec::new();
        push_tlv(&mut out, 0x30, inner.as_slice());
        assert(out@ =~= self.der());
        if out.len() <= DER_MAX_LEN {
            Ok(out)
        } else {
            Err(Asn1Error)
        }
    }

    /// The SEV-SNP report the evidence carries.
    pub fn extract_sev_report(&self) -> (r: Result<Report, String>)
        ensures
            r matches Ok(rep) ==> rep.wire() == self.attestation_report@,
            r is Ok <==> (self.attestation_report@.len() == REPORT_SIZE && is_vmpl_code(
                u32_at(self.attestation_report@, 48),
            )),
            r matches Err(m) ==> starts_with_context(m@, "unable to extract report"@),
    {
        match Report::try_from_slice(self.attestation_report.as_slice()) {
            Ok(rep) => Ok(rep),
            Err(e) => {
                proof {
                    reveal_strlit("unable to extract report");
                }
                Err(with_detail("unable to extract report", &e))
            },
        }
    }
}

/// The data whose hash the report of a bare-metal guest carries: the hash
/// of the CSR's public key, the coprocessor attestations and, with
/// workflows, the application configuration.
#[derive(Debug)]
pub struct ReportDataV1 {
    /// 32 bytes: the SHA-256 of the CSR's public key in DER.
    pub spki: Vec<u8>,
    pub coprocessors: CoprocessorAttestationSetV1,
    /// 32 bytes when workflows are used.
    pub appconfig_id: Option<Vec<u8>>,
}

/// The contents of an optional borrowed byte string.
pub open spec fn opt_slice_view(v: Option<&[u8]>) -> Option<Seq<u8>> {
    match v {
        Some(a) => Some(a@),
        None => None,
    }
}

impl ReportDataV1 {
    /// The DER encoding.
    pub open spec fn der(&self) -> Seq<u8> {
        tlv(
            0x30,
            tlv(0x04, self.spki@) + set_der(self.coprocessors.elements()) + explicit0_octet(
                opt_view(self.appconfig_id),
            ),
        )
    }

    /// The report data for a key hash, attestations and configuration; fails
    /// when the configuration is too long for an OCTET STRING.
    pub fn new(spki_hash: &[u8; 32], coprocessors: CoprocessorAttestationSetV1, appconfig_id: Option<&[u8]>) -> (r: Result<
        Self,
        String,
    >)
        ensures
            r is Ok <==> (appconfig_id matches Some(a) ==> a@.len() <= DER_MAX_LEN),
            r matches Ok(d) ==> d.spki@ == spki_hash@ && d.coprocessors.elements()
                == coprocessors.elements() && opt_view(d.appconfig_id) == opt_slice_view(appconfig_id),
            r matches Err(m) ==> starts_with_context(m@, "unable to obtain appconfig id octet string"@),
    {
        let config_id = match appconfig_id {
            Some(a) => {
                if let Err(e) = crate::document::octet_string_check(a) {
                    proof {
                        reveal_strlit("unable to obtain appconfig id octet string");
                    }
                    return Err(crate::text::join_context("unable to obtain appconfig id octet string", e.as_str()));
                }
                Some(copy_range(a, 0, a.len()))
            },
            None => None,
        };
        Ok(ReportDataV1 { spki: copy_range(spki_hash, 0, 32), coprocessors, appconfig_id: config_id })
    }

    /// The DER encoding; fails when it would exceed [`DER_MAX_LEN`] bytes.
    pub fn to_der(&self) -> (r: Result<Vec<u8>, Asn1Error>)
        ensures
            r is Ok <==> self.der().len() <= DER_MAX_LEN,
            r matches Ok(v) ==> v@ == self.der(),
    {
        let mut inner: Vec<u8> = Vec::new();
        push_tlv(&mut inner, 0x04, self.spki.as_slice());
        let cop = self.coprocessors.encode();
        crate::le::push_bytes(&mut inner, cop.as_slice());
        match &self.appconfig_id {
            Some(a) => {
                let mut o: Vec<u8> = Vec::new();
                push_tlv(&mut o, 0x04, a.as_slice());
                push_tlv(&mut inner, 0xa0, o.as_slice());
            },
            None => {},
        }
        let mut out: Vec<u8> = Vec::new();
        push_tlv(&mut out, 0x30, inner.as_slice());
        assert(out@ =~= self.der());
        if out.len() <= DER_MAX_LEN {
            Ok(out)
        } else {
            Err(Asn1Error)
        }
    }

    /// The bytes to hash into the report: the DER encoding.
    pub fn hash_input(&self) -> (r: Result<Vec<u8>, String>)
        ensures
            r is Ok <==> self.der().len() <= DER_MAX_LEN,
            r matches Ok(v) ==> v@ == self.der(),
            r matches Err(m) ==> starts_with_context(m@, "unable to convert report data to der"@),
    {
        match self.to_der() {
            Ok(v) => Ok(v),
            Err(_) => {
                proof {
                    reveal_strlit("unable to convert report data to der");
                }
                Err(crate::text::join_context("unable to convert report data to der", crate::document::length_overflow_text().as_str()))
            },
        }
    }
}

/// The certificates of the Fortanix quoting enclave: the attestation
/// certificate, then the node certificate.
#[derive(Debug, Clone)]
pub struct FqpeCerts {
    pub certificates: Vec<Vec<u8>>,
}

impl FqpeCerts {
    /// The DER encoding.
    pub open spec fn der(&self) -> Seq<u8> {
        tlv(0x30, tlv(0x30, concat_all(views(self.certificates@))))
    }

    /// The DER encoding; fails when it would exceed [`DER_MAX_LEN`] bytes.
    pub fn to_der(&self) -> (r: Result<Vec<u8>, Asn1Error>)
        ensures
            r is Ok <==> self.der().len() <= DER_MAX_LEN,
            r matches Ok(v) ==> v@ == self.der(),
    {
        let certs = concat_vecs(&self.certificates);
        let mut inner: Vec<u8> = Vec::new();
        push_tlv(&mut inner, 0x30, certs.as_slice());
        let mut out: Vec<u8> = Vec::new();
        push_tlv(&mut out, 0x30, inner.as_slice());
        assert(out@ =~= self.der());
        if out.len() <= DER_MAX_LEN {
            Ok(out)
        } else {
            Err(Asn1Error)
        }
    }
}

/// The encodings of a sequence of NVIDIA attestations.
pub open spec fn nvidia_ders(s: Seq<NvidiaAttestationV1>) -> Seq<Seq<u8>> {
    s.map_values(|a: NvidiaAttestationV1| a.der())
}

/// The coprocessor attestation that carries the given NVIDIA attestations.
pub open spec fn nvidia_coprocessor(s: Seq<NvidiaAttestationV1>) -> CoprocessorModel {
    (nvidia_attestation_oid(), nvidia_ders(s))
}

/// Every NVIDIA attestation fits the DER length limit.
pub open spec fn nvidia_encodable(s: Seq<NvidiaAttestationV1>) -> bool {
    forall|i: int| 0 <= i < s.len() ==> (#[trigger] s[i]).der().len() <= DER_MAX_LEN
}

/// `b` is the encoding of an NVIDIA attestation whose certificates are
/// documents to the `der` crate.
pub open spec fn is_nvidia_der(b: Seq<u8>) -> bool {
    exists|rep: Seq<u8>, cs: Seq<Seq<u8>>|
        all_elements(cs) && (forall|i: int| 0 <= i < cs.len() ==> der_document_accepts(#[trigger] cs[i]))
            && #[trigger] report_and_evidence_der(rep, cs) == b
}

impl CoprocessorAttestationV1 {
    /// The coprocessor attestation of NVIDIA GPUs: the NVIDIA type, and the
    /// encoding of each GPU's attestation as data, in order. Fails when one
    /// of them exceeds [`DER_MAX_LEN`] bytes.
    pub fn try_from_nvidia(attestations: Vec<NvidiaAttestationV1>) -> (r: Result<Self, Asn1Error>)
        ensures
            r is Ok <==> nvidia_encodable(attestations@),
            r matches Ok(c) ==> c.model() == nvidia_coprocessor(attestations@),
    {
        let mut data: Vec<Vec<u8>> = Vec::new();
        let mut i: usize = 0;
        while i < attestations.len()
            invariant
                i <= attestations@.len(),
                views(data@) == nvidia_ders(attestations@.subrange(0, i as int)),
                forall|j: int| 0 <= j < i ==> (#[trigger] attestations@[j]).der().len() <= DER_MAX_LEN,
            decreases attestations@.len() - i,
        {
            match attestations[i].to_der() {
                Ok(d) => {
                    let ghost before = data@;
                    data.push(d);
                    assert(data@ == before.push(d));
                    assert(views(data@) =~= views(before).push(d@));
                    assert(views(data@) =~= nvidia_ders(attestations@.subrange(0, i + 1)));
                },
                Err(e) => {
                    return Err(e);
                },
            }
            i = i + 1;
        }
        assert(attestations@.subrange(0, attestations@.len() as int) =~= attestations@);
        Ok(CoprocessorAttestationV1 { coprocessor_type: nvidia_attestation_oid_content(), data })
    }

    /// The NVIDIA attestations this coprocessor attestation carries; fails
    /// when its type is not the NVIDIA type, or when a data entry is not the
    /// encoding of an NVIDIA attestation.
    pub fn to_nvidia_attestations(&self) -> (r: Result<Vec<NvidiaAttestationV1>, String>)
        ensures
            r is Ok <==> self.coprocessor_type@ == nvidia_attestation_oid() && (forall|i: int|
                0 <= i < self.data@.len() ==> is_nvidia_der(#[trigger] self.data@[i]@)),
            r matches Ok(v) ==> nvidia_ders(v@) == views(self.data@),
            self.coprocessor_type@ != nvidia_attestation_oid() ==> (r matches Err(m) && m@
                == "Coprocessor type does not match"@),
    {
        let oid = nvidia_attestation_oid_content();
        if !crate::der::slices_equal(self.coprocessor_type.as_slice(), oid.as_slice()) {
            return Err("Coprocessor type does not match".to_owned());
        }
        let mut out: Vec<NvidiaAttestationV1> = Vec::new();
        let mut i: usize = 0;
        while i < self.data.len()
            invariant
                i <= self.data@.len(),
                nvidia_ders(out@) == views(self.data@.subrange(0, i as int)),
                forall|j: int| 0 <= j < i ==> is_nvidia_der(#[trigger] self.data@[j]@),
                self.coprocessor_type@ == nvidia_attestation_oid(),
            decreases self.data@.len() - i,
        {
            match NvidiaAttestationV1::from_der(self.data[i].as_slice()) {
                Ok(a) => {
                    let ghost before = out@;
                    proof {
                        assert(is_nvidia_der(self.data@[i as int]@)) by {
                            assert(report_and_evidence_der(a.attestation_report@, views(a.certificates@))
                                == self.data@[i as int]@);
                        }
                    }
                    out.push(a);
                    assert(out@ == before.push(a));
                    assert(nvidia_ders(out@) =~= nvidia_ders(before).push(a.der()));
                    assert(nvidia_ders(out@) =~= views(self.data@.subrange(0, i + 1)));
                },
                Err(_) => {
                    return Err("unable to decode NVIDIA attestation".to_owned());
                },
            }
            i = i + 1;
        }
        assert(self.data@.subrange(0, self.data@.len() as int) =~= self.data@);
        Ok(out)
    }
}

impl CoprocessorAttestationSetV1 {
    /// The coprocessor attestations of a guest: none without GPU
    /// attestations, else the one coprocessor attestation that carries them.
    /// Fails when a GPU attestation exceeds [`DER_MAX_LEN`] bytes.
    pub fn from_gpu_attestations(gpu: Option<Vec<NvidiaAttestationV1>>) -> (r: Result<Self, Asn1Error>)
        ensures
            r is Ok <==> (gpu matches Some(v) ==> nvidia_encodable(v@)),
            r matches Ok(s) ==> s.elements() == (match gpu {
                Some(v) => seq![nvidia_coprocessor(v@)],
                None => Seq::<CoprocessorModel>::empty(),
            }),
    {
        match gpu {
            None => Ok(CoprocessorAttestationSetV1::new()),
            Some(v) => {
                let ghost m = nvidia_coprocessor(v@);
                let c = CoprocessorAttestationV1::try_from_nvidia(v)?;
                let mut list: Vec<CoprocessorAttestationV1> = Vec::new();
                list.push(c);
                proof {
                    assert(super::models(list@) =~= seq![m]);
                }
                match CoprocessorAttestationSetV1::try_from(list) {
                    Ok(s) => {
                        proof {
                            let e = s.elements();
                            assert(e.to_multiset() == seq![m].to_multiset());
                            vstd::seq_lib::to_multiset_len(e);
                            vstd::seq_lib::to_multiset_len(seq![m]);
                            vstd::seq_lib::to_multiset_contains(e, m);
                            vstd::seq_lib::to_multiset_contains(seq![m], m);
                            assert(e.len() == 1);
                            assert(seq![m][0] == m);
                            assert(seq![m].contains(m));
                            assert(e.contains(m));
                            assert(e =~= seq![m]);
                        }
                        Ok(s)
                    },
                    Err(e) => Err(e),
                }
            },
        }
    }
}

/// The NVIDIA attestations that a coprocessor attestation made from them
/// carries decode again: for attestations whose certificates are complete
/// elements and documents to `der`, every data entry of the coprocessor
/// attestation is the encoding of an NVIDIA attestation, so reading them
/// back succeeds and gives the same encodings.
pub proof fn lemma_nvidia_roundtrip(attestations: Seq<NvidiaAttestationV1>)
    requires
        forall|i: int|
            0 <= i < attestations.len() ==> all_elements(views((#[trigger] attestations[i]).certificates@)),
        forall|i: int, k: int|
            0 <= i < attestations.len() && 0 <= k < attestations[i].certificates@.len()
                ==> der_document_accepts(#[trigger] attestations[i].certificates@[k]@),
    ensures
        forall|i: int| 0 <= i < attestations.len() ==> is_nvidia_der(#[trigger] nvidia_ders(attestations)[i]),
{
    assert forall|i: int| 0 <= i < attestations.len() implies is_nvidia_der(
        #[trigger] nvidia_ders(attestations)[i],
    ) by {
        let a = attestations[i];
        let cs = views(a.certificates@);
        assert forall|k: int| 0 <= k < cs.len() implies der_document_accepts(#[trigger] cs[k]) by {
            assert(cs[k] == a.certificates@[k]@);
        }
        assert(report_and_evidence_der(a.attestation_report@, cs) == nvidia_ders(attestations)[i]);
    }
}

impl AmdSevAttestationBaremetalV1 {
    /// The coprocessor attestations of the evidence, from the GPU
    /// attestations that could be collected (`None` when there were none).
    pub fn evidence_coprocessors(gpu: Option<Vec<NvidiaAttestationV1>>) -> (r: Result<
        CoprocessorAttestationSetV1,
        String,
    >)
        ensures
            r is Ok <==> (gpu matches Some(v) ==> nvidia_encodable(v@)),
            r matches Ok(s) ==> s.elements() == (match gpu {
                Some(v) => seq![nvidia_coprocessor(v@)],
                None => Seq::<CoprocessorModel>::empty(),
            }),
            r matches Err(m) ==> starts_with_context(m@, "unable to convert nvidia evidence"@),
    {
        match CoprocessorAttestationSetV1::from_gpu_attestations(gpu) {
            Ok(s) => Ok(s),
            Err(_) => {
                proof {
                    reveal_strlit("unable to convert nvidia evidence");
                }
                Err(crate::text::join_context("unable to convert nvidia evidence", crate::document::length_overflow_text().as_str()))
            },
        }
    }
}

/// The DER encoding of bare-metal evidence with report `rep` and the
/// attestations `ms`, in this order.
pub open spec fn baremetal_der(rep: Seq<u8>, ms: Seq<CoprocessorModel>) -> Seq<u8> {
    tlv(0x30, tlv(0x04, rep) + set_der(ms))
}

impl AmdSevAttestationBaremetalV1 {
    /// Reads the evidence from the whole of `b`: the report as an OCTET
    /// STRING, then the set of coprocessor attestations (see
    /// [`CoprocessorAttestationSetV1::from_der`]).
    #[verifier::rlimit(60)]
    pub fn from_der(b: &[u8]) -> (r: Result<Self, Asn1Error>)
        ensures
            r matches Ok(x) ==> exists|ms: Seq<CoprocessorModel>|
                oids_accepted(ms) && #[trigger] baremetal_der(x.attestation_report@, ms) == b@
                    && ms.to_multiset() == x.coprocessors.elements().to_multiset(),
            forall|rep: Seq<u8>, ms: Seq<CoprocessorModel>|
                oids_accepted(ms) && distinct_attestations(ms) && #[trigger] baremetal_der(rep, ms) == b@
                    ==> (r matches Ok(x) && x.attestation_report@ == rep
                    && x.coprocessors.elements().to_multiset() == ms.to_multiset()),
            forall|rep: Seq<u8>, ms: Seq<CoprocessorModel>|
                sorted_by_der(ms) && oids_accepted(ms) && distinct_attestations(ms) && #[trigger] baremetal_der(
                    rep,
                    ms,
                ) == b@ ==> (r matches Ok(x) && x.attestation_report@ == rep && x.coprocessors.elements()
                    == ms),
    {
        let ghost bs = b@;
        let blen = b.len();
        assert(bs.len() == blen);
        let (s0, e0) = match expect_tlv(b, 0, 0x30) {
            Some(p) => p,
            None => {
                proof {
                    assert forall|rep: Seq<u8>, ms: Seq<CoprocessorModel>|
                        oids_accepted(ms) && distinct_attestations(ms) && #[trigger] baremetal_der(rep, ms)
                            == b@ implies false by {
                        lemma_pair_layout(bs, 0x30, 0x04, rep, 0x31, concat_all(encodings(ms)));
                    }
                }
                return Err(Asn1Error);
            },
        };
        if e0 != blen {
            proof {
                assert forall|rep: Seq<u8>, ms: Seq<CoprocessorModel>|
                    oids_accepted(ms) && distinct_attestations(ms) && #[trigger] baremetal_der(rep, ms) == b@ implies false by {
                    lemma_pair_layout(bs, 0x30, 0x04, rep, 0x31, concat_all(encodings(ms)));
                }
            }
            return Err(Asn1Error);
        }
        let (s1, e1) = match read_prefixed(b, s0, e0, 0x04) {
            Some(p) => p,
            None => {
                proof {
                    assert forall|rep: Seq<u8>, ms: Seq<CoprocessorModel>|
                        oids_accepted(ms) && distinct_attestations(ms) && #[trigger] baremetal_der(rep, ms)
                            == b@ implies false by {
                        lemma_pair_layout(bs, 0x30, 0x04, rep, 0x31, concat_all(encodings(ms)));
                    }
                }
                return Err(Asn1Error);
            },
        };
        let set_bytes = vstd::slice::slice_subrange(b, e1, e0);
        proof {
            assert forall|rep: Seq<u8>, ms: Seq<CoprocessorModel>|
                oids_accepted(ms) && distinct_attestations(ms) && #[trigger] baremetal_der(rep, ms) == b@ implies set_bytes@
                    == set_der(ms) && bs.subrange(s1 as int, e1 as int) == rep by {
                lemma_pair_layout(bs, 0x30, 0x04, rep, 0x31, concat_all(encodings(ms)));
                assert(set_der(ms) + Seq::<u8>::empty() =~= set_der(ms));
                lemma_split(bs, s0 as int, e0 as int, tlv(0x04, rep), set_der(ms));
                lemma_tlv_content(bs, s0 as int, 0x04, rep);
            }
        }
        let coprocessors = CoprocessorAttestationSetV1::from_der(set_bytes)?;
        let attestation_report = copy_range(b, s1, e1);
        let x = AmdSevAttestationBaremetalV1 { attestation_report, coprocessors };
        proof {
            assert(bs.subrange(s0 as int, e0 as int) =~= bs.subrange(s0 as int, e1 as int) + bs.subrange(
                e1 as int,
                e0 as int,
            ));
            assert(bs =~= bs.subrange(0, e0 as int));
            let ms = choose|ms: Seq<CoprocessorModel>|
                oids_accepted(ms) && #[trigger] set_der(ms) == set_bytes@ && ms.to_multiset()
                    == x.coprocessors.elements().to_multiset();
            assert(oids_accepted(ms) && baremetal_der(x.attestation_report@, ms) == b@
                && ms.to_multiset() == x.coprocessors.elements().to_multiset());
        }
        let result: Result<Self, Asn1Error> = Ok(x);
        proof {
            assert(result->Ok_0 == x);
            assert(exists|m: Seq<CoprocessorModel>|
                oids_accepted(m) && #[trigger] baremetal_der(x.attestation_report@, m) == b@
                    && m.to_multiset() == x.coprocessors.elements().to_multiset());
        }
        result
    }
}

impl FqpeCerts {
    /// Reads the certificates from the whole of `b`: a SEQUENCE holding one
    /// SEQUENCE OF Certificate, each certificate a document to `der`.
    pub fn from_der(b: &[u8]) -> (r: Result<Self, Asn1Error>)
        ensures
            r matches Ok(f) ==> f.der() == b@ && all_elements(views(f.certificates@)) && (forall|i: int|
                0 <= i < f.certificates@.len() ==> der_document_accepts(#[trigger] f.certificates@[i]@)),
            forall|cs: Seq<Seq<u8>>|
                all_elements(cs) && (forall|i: int| 0 <= i < cs.len() ==> der_document_accepts(#[trigger] cs[i]))
                    && #[trigger] tlv(0x30, tlv(0x30, concat_all(cs))) == b@ ==> (r matches Ok(f) && views(
                    f.certificates@,
                ) == cs),
    {
        let ghost bs = b@;
        let blen = b.len();
        assert(bs.len() == blen);
        let (s0, e0) = match expect_tlv(b, 0, 0x30) {
            Some(p) => p,
            None => {
                proof {
                    assert forall|cs: Seq<Seq<u8>>|
                        all_elements(cs) && (forall|i: int| 0 <= i < cs.len() ==> der_document_accepts(#[trigger] cs[i]))
                            && #[trigger] tlv(0x30, tlv(0x30, concat_all(cs))) == b@ implies false by {
                        assert(bs.subrange(0, 0int + bs.len()) =~= bs);
                    }
                }
                return Err(Asn1Error);
            },
        };
        if e0 != blen {
            proof {
                assert forall|cs: Seq<Seq<u8>>|
                    all_elements(cs) && (forall|i: int| 0 <= i < cs.len() ==> der_document_accepts(#[trigger] cs[i]))
                        && #[trigger] tlv(0x30, tlv(0x30, concat_all(cs))) == b@ implies false by {
                    assert(bs.subrange(0, 0int + bs.len()) =~= bs);
                }
            }
            return Err(Asn1Error);
        }
        proof {
            assert forall|cs: Seq<Seq<u8>>|
                all_elements(cs) && (forall|i: int| 0 <= i < cs.len() ==> der_document_accepts(#[trigger] cs[i]))
                    && #[trigger] tlv(0x30, tlv(0x30, concat_all(cs))) == b@ implies tlv(0x30, concat_all(cs))
                    + Seq::<u8>::empty() == bs.subrange(s0 as int, e0 as int) by {
                assert(bs.subrange(0, 0int + bs.len()) =~= bs);
                lemma_tlv_content(bs, 0, 0x30, tlv(0x30, concat_all(cs)));
                assert(tlv(0x30, concat_all(cs)) + Seq::<u8>::empty() =~= tlv(0x30, concat_all(cs)));
            }
        }
        let (s1, e1) = match read_prefixed(b, s0, e0, 0x30) {
            Some(p) => p,
            None => {
                return Err(Asn1Error);
            },
        };
        if e1 != e0 {
            return Err(Asn1Error);
        }
        let certificates = match read_elements(b, s1, e1) {
            Some(v) => v,
            None => {
                proof {
                    assert forall|cs: Seq<Seq<u8>>|
                        all_elements(cs) && (forall|i: int| 0 <= i < cs.len() ==> der_document_accepts(#[trigger] cs[i]))
                            && #[trigger] tlv(0x30, tlv(0x30, concat_all(cs))) == b@ implies false by {
                        lemma_tlv_content(bs, s0 as int, 0x30, concat_all(cs));
                    }
                }
                return Err(Asn1Error);
            },
        };
        if !all_documents(&certificates) {
            proof {
                assert forall|cs: Seq<Seq<u8>>|
                    all_elements(cs) && (forall|i: int| 0 <= i < cs.len() ==> der_document_accepts(#[trigger] cs[i]))
                        && #[trigger] tlv(0x30, tlv(0x30, concat_all(cs))) == b@ implies false by {
                    lemma_tlv_content(bs, s0 as int, 0x30, concat_all(cs));
                    assert(views(certificates@) == cs);
                    let k = choose|k: int|
                        0 <= k < certificates@.len() && !der_document_accepts(certificates@[k]@);
                    assert(cs[k] == certificates@[k]@);
                }
            }
            return Err(Asn1Error);
        }
        let f = FqpeCerts { certificates };
        proof {
            assert(bs =~= bs.subrange(0, e0 as int));
            assert(bs.subrange(s0 as int, e0 as int) =~= bs.subrange(s0 as int, e1 as int));
            assert(f.der() == bs);
            assert forall|cs: Seq<Seq<u8>>|
                all_elements(cs) && (forall|i: int| 0 <= i < cs.len() ==> der_document_accepts(#[trigger] cs[i]))
                    && #[trigger] tlv(0x30, tlv(0x30, concat_all(cs))) == b@ implies views(f.certificates@)
                    == cs by {
                lemma_tlv_content(bs, s0 as int, 0x30, concat_all(cs));
            }
        }
        Ok(f)
    }
}

} // verus!
