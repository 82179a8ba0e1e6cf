//! The CSR encoding of an AMD SEV-SNP attestation: the report and the
//! certificates that support it (the VCEK and its chain of trust).
//!
//! ```asn1
//! AmdSevAttestationV1 ::= SEQUENCE {
//!     attestation_report OCTET STRING
//!     certificates SEQUENCE OF Certificate
//! }
//! ```

use vstd::prelude::*;

use crate::ber::{
    ber_constructed, ber_constructed_length, ber_length_of, ber_tlv, lemma_ber_tlv_content, lemma_der_length_is_ber,
    read_ber_constructed_span, read_ber_prefixed,
};
use crate::der::{
    all_elements, concat_all, expect_tlv, length_bytes, lemma_split, push_tlv, read_elements,
    tlv, views, Asn1Error,
};

verus! {

/// The report and its supporting certificates; each certificate is kept as
/// the complete DER element it was read as.
#[derive(Debug, Clone)]
pub struct ReportAndEvidence {
    pub report: Vec<u8>,
    pub certificates: Vec<Vec<u8>>,
}

/// The owned form under its ASN.1 name.
pub type AmdSevAttestationV1 = ReportAndEvidence;

/// The DER encoding of a report and its certificates.
pub open spec fn report_and_evidence_der(report: Seq<u8>, certificates: Seq<Seq<u8>>) -> Seq<u8> {
    tlv(0x30, tlv(0x04, report) + tlv(0x30, concat_all(certificates)))
}

/// A BER encoding of a report and its certificates, with the length
/// octets `l0` (the SEQUENCE), `l1` (the report) and `l2` (the
/// certificates); the two SEQUENCEs in definite or indefinite form.
pub open spec fn report_and_evidence_ber(
    report: Seq<u8>,
    certificates: Seq<Seq<u8>>,
    l0: Seq<u8>,
    l1: Seq<u8>,
    l2: Seq<u8>,
) -> Seq<u8> {
    ber_constructed(0x30, l0, evidence_contents_ber(report, certificates, l1, l2))
}

/// The contents of a BER encoding of a report and its certificates.
pub open spec fn evidence_contents_ber(report: Seq<u8>, certificates: Seq<Seq<u8>>, l1: Seq<u8>, l2: Seq<u8>) -> Seq<u8> {
    ber_tlv(0x04, l1, report) + ber_constructed(0x30, l2, concat_all(certificates))
}

/// The length octets fit what they frame.
pub open spec fn evidence_lengths(
    report: Seq<u8>,
    certificates: Seq<Seq<u8>>,
    l0: Seq<u8>,
    l1: Seq<u8>,
    l2: Seq<u8>,
) -> bool {
    &&& ber_length_of(l1, report.len())
    &&& ber_constructed_length(l2, concat_all(certificates))
    &&& ber_constructed_length(l0, evidence_contents_ber(report, certificates, l1, l2))
}

/// No certificate starts with the octet of an end-of-contents tag (0x00,
/// or 0x20 with the constructed bit): a BER reader takes such an octet for
/// the end of the sequence.
pub open spec fn no_end_of_contents_tags(certificates: Seq<Seq<u8>>) -> bool {
    forall|i: int| 0 <= i < certificates.len() ==> #[trigger] certificates[i][0] != 0x00u8 && certificates[i][0] != 0x20u8
}

/// `b` is a BER encoding of the report and its certificates, in some
/// length forms.
pub open spec fn is_evidence_encoding(report: Seq<u8>, certificates: Seq<Seq<u8>>, b: Seq<u8>) -> bool {
    exists|l0: Seq<u8>, l1: Seq<u8>, l2: Seq<u8>|
        evidence_lengths(report, certificates, l0, l1, l2) && #[trigger] report_and_evidence_ber(
            report,
            certificates,
            l0,
            l1,
            l2,
        ) == b
}

/// `c` is a BER encoding of the contents: the report, then the
/// certificates.
pub open spec fn is_evidence_contents(report: Seq<u8>, certificates: Seq<Seq<u8>>, c: Seq<u8>) -> bool {
    exists|l1: Seq<u8>, l2: Seq<u8>|
        ber_length_of(l1, report.len()) && ber_constructed_length(l2, concat_all(certificates))
            && #[trigger] evidence_contents_ber(report, certificates, l1, l2) == c
}

/// The arcs of the OID that identifies this structure in a CSR.
pub open spec fn aci_oid_arcs() -> Seq<u64> {
    seq![1, 3, 6, 1, 4, 1, 49690, 2, 2, 10]
}

/// The OID that identifies this structure in a CSR, as its arcs.
pub fn aci_oid() -> (r: Vec<u64>)
    ensures
        r@ == aci_oid_arcs(),
{
    let r = vec![1u64, 3, 6, 1, 4, 1, 49690, 2, 2, 10];
    assert(r@ =~= aci_oid_arcs());
    r
}

/// Concatenates byte vectors.
pub fn concat_vecs(v: &Vec<Vec<u8>>) -> (out: Vec<u8>)
    ensures
        out@ == concat_all(views(v@)),
{
    let mut out: Vec<u8> = Vec::new();
    let mut i: usize = 0;
    while i < v.len()
        invariant
            i <= v@.len(),
            out@ == concat_all(views(v@.subrange(0, i as int))),
        decreases v@.len() - i,
    {
        proof {
            crate::der::lemma_concat_push(views(v@.subrange(0, i as int)), v@[i as int]@);
            assert(views(v@.subrange(0, (i + 1) as int)) =~= views(v@.subrange(0, i as int)).push(
                v@[i as int]@,
            ));
        }
        crate::le::push_bytes(&mut out, v[i].as_slice());
        i = i + 1;
    }
    assert(v@.subrange(0, v@.len() as int) =~= v@);
    out
}

/// When `b` is the encoding of (`rep`, `cs`), the outer sequence spans all
/// of `b`, and its contents are the report element followed by the
/// certificate sequence.
proof fn lemma_der_layout(b: Seq<u8>, rep: Seq<u8>, cs: Seq<Seq<u8>>)
    requires
        report_and_evidence_der(rep, cs) == b,
        b.len() <= usize::MAX,
    ensures
        ({
            let x = tlv(0x04, rep) + tlv(0x30, concat_all(cs));
            let s0: int = 1 + crate::der::length_bytes(x.len()).len() as int;
            &&& b.subrange(0, tlv(0x30, x).len() as int) == tlv(0x30, x)
            &&& tlv(0x30, x).len() == b.len()
            &&& b.subrange(s0, b.len() as int) == x
            &&& b.subrange(s0, s0 + tlv(0x04, rep).len()) == tlv(0x04, rep)
            &&& b.subrange(s0 + tlv(0x04, rep).len(), s0 + tlv(0x04, rep).len() + tlv(
                0x30,
                concat_all(cs),
            ).len()) == tlv(0x30, concat_all(cs))
            &&& s0 + tlv(0x04, rep).len() + tlv(0x30, concat_all(cs)).len() == b.len()
        }),
{
    let x = tlv(0x04, rep) + tlv(0x30, concat_all(cs));
    assert(b.subrange(0, b.len() as int) =~= b);
    crate::der::lemma_tlv_content(b, 0, 0x30, x);
    let s0: int = 1 + crate::der::length_bytes(x.len()).len() as int;
    lemma_split(b, s0, b.len() as int, tlv(0x04, rep), tlv(0x30, concat_all(cs)));
}

/// Whether no element of `certs` starts with the octet of an
/// end-of-contents tag.
fn free_of_end_of_contents_tags(certs: &Vec<Vec<u8>>) -> (r: bool)
    requires
        all_elements(views(certs@)),
    ensures
        r == no_end_of_contents_tags(views(certs@)),
{
    let mut k: usize = 0;
    while k < certs.len()
        invariant
            k <= certs@.len(),
            all_elements(views(certs@)),
            forall|i: int| 0 <= i < k ==> #[trigger] views(certs@)[i][0] != 0x00u8 && views(certs@)[i][0] != 0x20u8,
        decreases certs@.len() - k,
    {
        assert(crate::der::is_element(views(certs@)[k as int]));
        assert(views(certs@)[k as int] == certs@[k as int]@);
        let first = certs[k][0];
        if first == 0x00 || first == 0x20 {
            return false;
        }
        k = k + 1;
    }
    true
}

impl ReportAndEvidence {
    /// Appends the DER encoding to `out`.
    pub fn write(&self, out: &mut Vec<u8>)
        ensures
            final(out)@ == old(out)@ + report_and_evidence_der(self.report@, views(self.certificates@)),
    {
        let certs = concat_vecs(&self.certificates);
        let mut inner: Vec<u8> = Vec::new();
        push_tlv(&mut inner, 0x04, self.report.as_slice());
        push_tlv(&mut inner, 0x30, certs.as_slice());
        assert(inner@ =~= tlv(0x04, self.report@) + tlv(0x30, concat_all(views(self.certificates@))));
        push_tlv(out, 0x30, inner.as_slice());
    }

    /// The DER encoding.
    pub fn to_der(&self) -> (out: Vec<u8>)
        ensures
            out@ == report_and_evidence_der(self.report@, views(self.certificates@)),
    {
        let mut out: Vec<u8> = Vec::new();
        self.write(&mut out);
        assert(out@ =~= report_and_evidence_der(self.report@, views(self.certificates@)));
        out
    }

    /// Reads the structure from the whole of `b`: a SEQUENCE of the report
    /// as an OCTET STRING and a SEQUENCE of certificates, each certificate
    /// one complete DER element. The OCTET STRING's length may take any BER
    /// definite form; the SEQUENCEs may also take the indefinite form.
    ///
    /// Constructed OCTET STRINGs are refused, and so is a certificate that
    /// starts with the octet of an end-of-contents tag.
    pub fn decode_ber(b: &[u8]) -> (r: Result<Self, Asn1Error>)
        ensures
            r matches Ok(x) ==> all_elements(views(x.certificates@)) && no_end_of_contents_tags(
                views(x.certificates@),
            ) && is_evidence_encoding(x.report@, views(x.certificates@), b@),
            forall|rep: Seq<u8>, cs: Seq<Seq<u8>>, l0: Seq<u8>, l1: Seq<u8>, l2: Seq<u8>|
                all_elements(cs) && no_end_of_contents_tags(cs) && evidence_lengths(rep, cs, l0, l1, l2)
                    && #[trigger] report_and_evidence_ber(rep, cs, l0, l1, l2) == b@ ==> (r matches Ok(x)
                    && x.report@ == rep && views(x.certificates@) == cs),
            forall|rep: Seq<u8>, cs: Seq<Seq<u8>>|
                all_elements(cs) && no_end_of_contents_tags(cs) && #[trigger] report_and_evidence_der(rep, cs)
                    == b@ ==> (r matches Ok(x) && x.report@ == rep && views(x.certificates@) == cs),
    {
        let r = Self::decode_ber_whole(b);
        proof {
            assert(b@.len() == b.len());
            assert forall|rep: Seq<u8>, cs: Seq<Seq<u8>>|
                all_elements(cs) && no_end_of_contents_tags(cs) && #[trigger] report_and_evidence_der(rep, cs)
                    == b@ implies (r matches Ok(x) && x.report@ == rep && views(x.certificates@) == cs) by {
                lemma_der_layout(b@, rep, cs);
                lemma_der_length_is_ber(0x04, rep);
                lemma_der_length_is_ber(0x30, concat_all(cs));
                lemma_der_length_is_ber(0x30, tlv(0x04, rep) + tlv(0x30, concat_all(cs)));
                let l0 = length_bytes((tlv(0x04, rep) + tlv(0x30, concat_all(cs))).len());
                let l1 = length_bytes(rep.len());
                let l2 = length_bytes(concat_all(cs).len());
                assert(l0 != seq![0x80u8]) by {
                    if l0 == seq![0x80u8] {
                        assert(l0[0] == 0x80u8);
                    }
                }
                assert(l2 != seq![0x80u8]) by {
                    if l2 == seq![0x80u8] {
                        assert(l2[0] == 0x80u8);
                    }
                }
                assert(evidence_contents_ber(rep, cs, l1, l2) == tlv(0x04, rep) + tlv(0x30, concat_all(cs)));
                assert(evidence_lengths(rep, cs, l0, l1, l2));
                assert(report_and_evidence_ber(rep, cs, l0, l1, l2) == b@);
            }
        }
        r
    }

    fn decode_ber_whole(b: &[u8]) -> (r: Result<Self, Asn1Error>)
        ensures
            r matches Ok(x) ==> all_elements(views(x.certificates@)) && no_end_of_contents_tags(
                views(x.certificates@),
            ) && is_evidence_encoding(x.report@, views(x.certificates@), b@),
            forall|rep: Seq<u8>, cs: Seq<Seq<u8>>, l0: Seq<u8>, l1: Seq<u8>, l2: Seq<u8>|
                all_elements(cs) && no_end_of_contents_tags(cs) && evidence_lengths(rep, cs, l0, l1, l2)
                    && #[trigger] report_and_evidence_ber(rep, cs, l0, l1, l2) == b@ ==> (r matches Ok(x)
                    && x.report@ == rep && views(x.certificates@) == cs),
    {
        let ghost bs = b@;
        let blen = b.len();
        assert(bs.len() == blen);
        assert(bs.subrange(0, bs.len() as int) =~= bs);
        let (s0, e0) = match read_ber_constructed_span(b, 0, blen, 0x30) {
            Some(p) => p,
            None => {
                return Err(Asn1Error);
            },
        };
        proof {
            assert forall|rep: Seq<u8>, cs: Seq<Seq<u8>>, l0: Seq<u8>, l1: Seq<u8>, l2: Seq<u8>|
                all_elements(cs) && no_end_of_contents_tags(cs) && evidence_lengths(rep, cs, l0, l1, l2)
                    && #[trigger] report_and_evidence_ber(rep, cs, l0, l1, l2) == b@ implies evidence_contents_ber(
                rep,
                cs,
                l1,
                l2,
            ) == bs.subrange(s0 as int, e0 as int) by {
                let c = evidence_contents_ber(rep, cs, l1, l2);
                assert(ber_constructed(0x30, l0, c) == bs.subrange(0, blen as int));
                assert(s0 == 1 + l0.len() && e0 == 1 + l0.len() + c.len());
                if l0 == seq![0x80u8] {
                    assert((seq![0x30u8] + l0 + c + seq![0u8, 0u8]).subrange(s0 as int, e0 as int) =~= c);
                } else {
                    assert(ber_tlv(0x30, l0, c).subrange(s0 as int, e0 as int) =~= c);
                }
            }
        }
        match Self::decode_ber_contents(b, s0, e0) {
            Some(x) => {
                proof {
                    let (l1, l2) = choose|l1: Seq<u8>, l2: Seq<u8>|
                        ber_length_of(l1, x.report@.len()) && ber_constructed_length(l2, concat_all(views(x.certificates@)))
                            && #[trigger] evidence_contents_ber(x.report@, views(x.certificates@), l1, l2)
                            == bs.subrange(s0 as int, e0 as int);
                    let l0 = bs.subrange(1, s0 as int);
                    assert(report_and_evidence_ber(x.report@, views(x.certificates@), l0, l1, l2) == bs);
                    assert(evidence_lengths(x.report@, views(x.certificates@), l0, l1, l2));
                }
                Ok(x)
            },
            None => Err(Asn1Error),
        }
    }

    /// Reads the report and the certificates that make up `b[s0..e0]`.
    fn decode_ber_contents(b: &[u8], s0: usize, e0: usize) -> (r: Option<Self>)
        requires
            s0 <= e0 <= b@.len(),
        ensures
            r matches Some(x) ==> all_elements(views(x.certificates@)) && no_end_of_contents_tags(
                views(x.certificates@),
            ) && is_evidence_contents(x.report@, views(x.certificates@), b@.subrange(s0 as int, e0 as int)),
            forall|rep: Seq<u8>, cs: Seq<Seq<u8>>, l1: Seq<u8>, l2: Seq<u8>|
                all_elements(cs) && no_end_of_contents_tags(cs) && ber_length_of(l1, rep.len())
                    && ber_constructed_length(l2, concat_all(cs)) && #[trigger] evidence_contents_ber(
                    rep,
                    cs,
                    l1,
                    l2,
                ) == b@.subrange(s0 as int, e0 as int) ==> (r matches Some(x) && x.report@ == rep && views(x.certificates@) == cs),
    {
        let ghost bs = b@;
        let (s1, e1) = match read_ber_prefixed(b, s0, e0, 0x04) {
            Some(p) => p,
            None => {
                proof {
                    assert forall|rep: Seq<u8>, cs: Seq<Seq<u8>>, l1: Seq<u8>, l2: Seq<u8>|
                        all_elements(cs) && no_end_of_contents_tags(cs) && ber_length_of(l1, rep.len())
                            && ber_constructed_length(l2, concat_all(cs)) && #[trigger] evidence_contents_ber(
                            rep,
                            cs,
                            l1,
                            l2) == b@.subrange(s0 as int, e0 as int) implies false by {
                        let t1 = ber_tlv(0x04, l1, rep);
                        let t2 = ber_constructed(0x30, l2, concat_all(cs));
                        lemma_split(bs, s0 as int, e0 as int, t1, t2);
                        assert(ber_length_of(l1, rep.len()));
                    }
                }
                return None;
            },
        };
        let (s2, e2) = match read_ber_constructed_span(b, e1, e0, 0x30) {
            Some(p) => p,
            None => {
                proof {
                    assert forall|rep: Seq<u8>, cs: Seq<Seq<u8>>, l1: Seq<u8>, l2: Seq<u8>|
                        all_elements(cs) && no_end_of_contents_tags(cs) && ber_length_of(l1, rep.len())
                            && ber_constructed_length(l2, concat_all(cs)) && #[trigger] evidence_contents_ber(
                            rep,
                            cs,
                            l1,
                            l2) == b@.subrange(s0 as int, e0 as int) implies false by {
                        let t1 = ber_tlv(0x04, l1, rep);
                        let t2 = ber_constructed(0x30, l2, concat_all(cs));
                        lemma_split(bs, s0 as int, e0 as int, t1, t2);
                        assert(ber_length_of(l1, rep.len()));
                        assert(t2 + Seq::<u8>::empty() =~= t2);
                        assert(bs.subrange(s0 + t1.len(), e0 as int) == t2);
                        assert(ber_constructed_length(l2, concat_all(cs)));
                    }
                }
                return None;
            },
        };
        let certificates = match read_elements(b, s2, e2) {
            Some(v) => v,
            None => {
                proof {
                    assert forall|rep: Seq<u8>, cs: Seq<Seq<u8>>, l1: Seq<u8>, l2: Seq<u8>|
                        all_elements(cs) && no_end_of_contents_tags(cs) && ber_length_of(l1, rep.len())
                            && ber_constructed_length(l2, concat_all(cs)) && #[trigger] evidence_contents_ber(
                            rep,
                            cs,
                            l1,
                            l2) == b@.subrange(s0 as int, e0 as int) implies false by {
                        let t1 = ber_tlv(0x04, l1, rep);
                        let t2 = ber_constructed(0x30, l2, concat_all(cs));
                        lemma_split(bs, s0 as int, e0 as int, t1, t2);
                        assert(ber_length_of(l1, rep.len()));
                        assert(t2 + Seq::<u8>::empty() =~= t2);
                        assert(bs.subrange(s0 + t1.len(), e0 as int) == t2);
                        assert(ber_constructed_length(l2, concat_all(cs)));
                        assert(concat_all(cs) == bs.subrange(s2 as int, e2 as int)) by {
                            if l2 == seq![0x80u8] {
                                assert((seq![0x30u8] + l2 + concat_all(cs) + seq![0u8, 0u8]).subrange(1 + l2.len() as int, 1 + l2.len() as int + concat_all(cs).len()) =~= concat_all(cs));
                            } else {
                                assert(ber_tlv(0x30, l2, concat_all(cs)).subrange(1 + l2.len() as int, 1 + l2.len() as int + concat_all(cs).len()) =~= concat_all(cs));
                            }
                            assert(bs.subrange(s2 as int, e2 as int) =~= bs.subrange(e1 as int, e0 as int).subrange(s2 - e1, e2 - e1));
                        }
                    }
                }
                return None;
            },
        };
        if !free_of_end_of_contents_tags(&certificates) {
                proof {
                    assert forall|rep: Seq<u8>, cs: Seq<Seq<u8>>, l1: Seq<u8>, l2: Seq<u8>|
                        all_elements(cs) && no_end_of_contents_tags(cs) && ber_length_of(l1, rep.len())
                            && ber_constructed_length(l2, concat_all(cs)) && #[trigger] evidence_contents_ber(
                            rep,
                            cs,
                            l1,
                            l2) == b@.subrange(s0 as int, e0 as int) implies false by {
                        let t1 = ber_tlv(0x04, l1, rep);
                        let t2 = ber_constructed(0x30, l2, concat_all(cs));
                        lemma_split(bs, s0 as int, e0 as int, t1, t2);
                        assert(ber_length_of(l1, rep.len()));
                        assert(t2 + Seq::<u8>::empty() =~= t2);
                        assert(bs.subrange(s0 + t1.len(), e0 as int) == t2);
                        assert(ber_constructed_length(l2, concat_all(cs)));
                        assert(concat_all(cs) == bs.subrange(s2 as int, e2 as int)) by {
                            if l2 == seq![0x80u8] {
                                assert((seq![0x30u8] + l2 + concat_all(cs) + seq![0u8, 0u8]).subrange(1 + l2.len() as int, 1 + l2.len() as int + concat_all(cs).len()) =~= concat_all(cs));
                            } else {
                                assert(ber_tlv(0x30, l2, concat_all(cs)).subrange(1 + l2.len() as int, 1 + l2.len() as int + concat_all(cs).len()) =~= concat_all(cs));
                            }
                            assert(bs.subrange(s2 as int, e2 as int) =~= bs.subrange(e1 as int, e0 as int).subrange(s2 - e1, e2 - e1));
                        }
                        assert(views(certificates@) == cs);
                    }
                }
            return None;
        }
        let mut report: Vec<u8> = Vec::new();
        crate::le::push_bytes(&mut report, vstd::slice::slice_subrange(b, s1, e1));
        proof {
            assert(report@ =~= bs.subrange(s1 as int, e1 as int));
            let l1 = bs.subrange(s0 + 1, s1 as int);
            let l2 = bs.subrange(e1 + 1, s2 as int);
            assert(bs.subrange(s0 as int, e0 as int) =~= bs.subrange(s0 as int, e1 as int) + bs.subrange(
                e1 as int,
                e0 as int,
            ));
            assert(evidence_contents_ber(report@, views(certificates@), l1, l2) == bs.subrange(s0 as int, e0 as int));
            assert forall|i: int| 0 <= i < views(certificates@).len() implies #[trigger] views(certificates@)[i][0] != 0x00u8
                && views(certificates@)[i][0] != 0x20u8 by {
                assert(views(certificates@)[i] == certificates@[i]@);
            }
            assert forall|rep: Seq<u8>, cs: Seq<Seq<u8>>, l1: Seq<u8>, l2: Seq<u8>|
                all_elements(cs) && no_end_of_contents_tags(cs) && ber_length_of(l1, rep.len())
                    && ber_constructed_length(l2, concat_all(cs)) && #[trigger] evidence_contents_ber(
                    rep,
                    cs,
                    l1,
                    l2,
                ) == b@.subrange(s0 as int, e0 as int) implies report@ == rep && views(certificates@) == cs by {
                let t1 = ber_tlv(0x04, l1, rep);
                let t2 = ber_constructed(0x30, l2, concat_all(cs));
                lemma_split(bs, s0 as int, e0 as int, t1, t2);
                assert(ber_length_of(l1, rep.len()));
                lemma_ber_tlv_content(bs, s0 as int, 0x04, l1, rep);
                assert(t2 + Seq::<u8>::empty() =~= t2);
                assert(bs.subrange(s0 + t1.len(), e0 as int) == t2);
                assert(ber_constructed_length(l2, concat_all(cs)));
                assert(concat_all(cs) == bs.subrange(s2 as int, e2 as int)) by {
                    if l2 == seq![0x80u8] {
                        assert((seq![0x30u8] + l2 + concat_all(cs) + seq![0u8, 0u8]).subrange(1 + l2.len() as int, 1 + l2.len() as int + concat_all(cs).len()) =~= concat_all(cs));
                    } else {
                        assert(ber_tlv(0x30, l2, concat_all(cs)).subrange(1 + l2.len() as int, 1 + l2.len() as int + concat_all(cs).len()) =~= concat_all(cs));
                    }
                    assert(bs.subrange(s2 as int, e2 as int) =~= bs.subrange(e1 as int, e0 as int).subrange(s2 - e1, e2 - e1));
                }
            }
        }
        Some(ReportAndEvidence { report, certificates })
    }

    /// Reads the structure from the whole of `b` in its DER encoding, as
    /// the `der` crate reads it: lengths in their shortest form.
    #[verifier::rlimit(60)]
    pub fn decode_der(b: &[u8]) -> (r: Result<Self, Asn1Error>)
        ensures
            r matches Ok(x) ==> all_elements(views(x.certificates@)) && report_and_evidence_der(
                x.report@,
                views(x.certificates@),
            ) == b@,
            forall|rep: Seq<u8>, cs: Seq<Seq<u8>>|
                all_elements(cs) && #[trigger] report_and_evidence_der(rep, cs) == b@ ==> (r matches Ok(
                    x,
                ) && x.report@ == rep && views(x.certificates@) == cs),
    {
        let ghost bs = b@;
        let blen = b.len();
        assert(bs.len() == blen);
        let (s0, e0) = match expect_tlv(b, 0, 0x30) {
            Some(p) => p,
            None => {
                proof {
                    assert forall|rep: Seq<u8>, cs: Seq<Seq<u8>>|
                        all_elements(cs) && #[trigger] report_and_evidence_der(rep, cs) == b@ implies false by {
                        lemma_der_layout(bs, rep, cs);
                        let x = tlv(0x04, rep) + tlv(0x30, concat_all(cs));
                        assert(bs.subrange(0, 0int + tlv(0x30, x).len()) == tlv(0x30, x));
                    }
                }
                return Err(Asn1Error);
            },
        };
        if e0 != b.len() {
            proof {
                assert forall|rep: Seq<u8>, cs: Seq<Seq<u8>>|
                    all_elements(cs) && #[trigger] report_and_evidence_der(rep, cs) == b@ implies false by {
                    lemma_der_layout(bs, rep, cs);
                    let x = tlv(0x04, rep) + tlv(0x30, concat_all(cs));
                    assert(bs.subrange(0, 0int + tlv(0x30, x).len()) == tlv(0x30, x));
                }
            }
            return Err(Asn1Error);
        }
        let (s1, e1) = match expect_tlv(b, s0, 0x04) {
            Some(p) => p,
            None => {
                proof {
                    assert forall|rep: Seq<u8>, cs: Seq<Seq<u8>>|
                        all_elements(cs) && #[trigger] report_and_evidence_der(rep, cs) == b@ implies false by {
                        lemma_der_layout(bs, rep, cs);
                        let x = tlv(0x04, rep) + tlv(0x30, concat_all(cs));
                        assert(bs.subrange(0, 0int + tlv(0x30, x).len()) == tlv(0x30, x));
                        assert(bs.subrange(s0 as int, s0 + tlv(0x04, rep).len()) == tlv(0x04, rep));
                    }
                }
                return Err(Asn1Error);
            },
        };
        let (s2, e2) = match expect_tlv(b, e1, 0x30) {
            Some(p) => p,
            None => {
                proof {
                    assert forall|rep: Seq<u8>, cs: Seq<Seq<u8>>|
                        all_elements(cs) && #[trigger] report_and_evidence_der(rep, cs) == b@ implies false by {
                        lemma_der_layout(bs, rep, cs);
                        let x = tlv(0x04, rep) + tlv(0x30, concat_all(cs));
                        assert(bs.subrange(0, 0int + tlv(0x30, x).len()) == tlv(0x30, x));
                        assert(bs.subrange(s0 as int, s0 + tlv(0x04, rep).len()) == tlv(0x04, rep));
                        assert(bs.subrange(e1 as int, e1 + tlv(0x30, concat_all(cs)).len()) == tlv(
                            0x30,
                            concat_all(cs),
                        ));
                    }
                }
                return Err(Asn1Error);
            },
        };
        if e2 != e0 {
            proof {
                assert forall|rep: Seq<u8>, cs: Seq<Seq<u8>>|
                    all_elements(cs) && #[trigger] report_and_evidence_der(rep, cs) == b@ implies false by {
                    lemma_der_layout(bs, rep, cs);
                        let x = tlv(0x04, rep) + tlv(0x30, concat_all(cs));
                        assert(bs.subrange(0, 0int + tlv(0x30, x).len()) == tlv(0x30, x));
                        assert(bs.subrange(s0 as int, s0 + tlv(0x04, rep).len()) == tlv(0x04, rep));
                        assert(bs.subrange(e1 as int, e1 + tlv(0x30, concat_all(cs)).len()) == tlv(
                            0x30,
                            concat_all(cs),
                        ));
                }
            }
            return Err(Asn1Error);
        }
        let certificates = match read_elements(b, s2, e2) {
            Some(v) => v,
            None => {
                proof {
                    assert forall|rep: Seq<u8>, cs: Seq<Seq<u8>>|
                        all_elements(cs) && #[trigger] report_and_evidence_der(rep, cs) == b@ implies false by {
                        lemma_der_layout(bs, rep, cs);
                        let x = tlv(0x04, rep) + tlv(0x30, concat_all(cs));
                        assert(bs.subrange(0, 0int + tlv(0x30, x).len()) == tlv(0x30, x));
                        assert(bs.subrange(s0 as int, s0 + tlv(0x04, rep).len()) == tlv(0x04, rep));
                        assert(bs.subrange(e1 as int, e1 + tlv(0x30, concat_all(cs)).len()) == tlv(
                            0x30,
                            concat_all(cs),
                        ));
                        crate::der::lemma_tlv_content(bs, e1 as int, 0x30, concat_all(cs));
                        assert(bs.subrange(s2 as int, e2 as int) == concat_all(cs));
                    }
                }
                return Err(Asn1Error);
            },
        };
        let mut report: Vec<u8> = Vec::new();
        crate::le::push_bytes(&mut report, vstd::slice::slice_subrange(b, s1, e1));
        proof {
            assert(report@ =~= bs.subrange(s1 as int, e1 as int));
            assert(bs.subrange(s0 as int, e0 as int) =~= bs.subrange(s0 as int, e1 as int) + bs.subrange(
                e1 as int,
                e0 as int,
            ));
            assert(bs =~= bs.subrange(0, e0 as int));
            assert forall|rep: Seq<u8>, cs: Seq<Seq<u8>>|
                all_elements(cs) && #[trigger] report_and_evidence_der(rep, cs) == b@ implies report@
                    == rep && views(certificates@) == cs by {
                lemma_der_layout(bs, rep, cs);
                        let x = tlv(0x04, rep) + tlv(0x30, concat_all(cs));
                        assert(bs.subrange(0, 0int + tlv(0x30, x).len()) == tlv(0x30, x));
                        assert(bs.subrange(s0 as int, s0 + tlv(0x04, rep).len()) == tlv(0x04, rep));
                        assert(bs.subrange(e1 as int, e1 + tlv(0x30, concat_all(cs)).len()) == tlv(
                            0x30,
                            concat_all(cs),
                        ));
                crate::der::lemma_tlv_content(bs, s0 as int, 0x04, rep);
                crate::der::lemma_tlv_content(bs, e1 as int, 0x30, concat_all(cs));
            }
        }
        Ok(ReportAndEvidence { report, certificates })
    }
}

impl ReportAndEvidence {
    /// The attestation as a CSR attribute named by [`aci_oid`].
    pub fn to_attribute(&self) -> (a: crate::csr::Attribute)
        ensures
            a.oid@ == aci_oid_arcs(),
            views(a.value@) == seq![report_and_evidence_der(self.report@, views(self.certificates@))],
    {
        crate::csr::Attribute::single(aci_oid(), self.to_der())
    }

    /// The attestation as a non-critical extension named by [`aci_oid`].
    pub fn to_extension(&self) -> (e: crate::csr::Extension)
        ensures
            e.oid@ == aci_oid_arcs(),
            !e.critical,
            e.value@ == report_and_evidence_der(self.report@, views(self.certificates@)),
    {
        crate::csr::Extension::evidence(aci_oid(), self.to_der())
    }
}

} // verus!
