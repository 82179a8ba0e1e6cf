//! Reading the vTPM quote formats, the PCR-bound associated data and the
//! report data of bare-metal guests back from DER.
//!
//! Each reader takes the whole input and accepts exactly the encodings of
//! the values that it can read back: certificates must be documents to
//! `der`, and coprocessor sets must be sorted, free of repeats, and name
//! their types by OIDs that `der` accepts.

use vstd::prelude::*;

use super::baremetal_snp::ReportDataV1;
use super::decode::{octet_contents, oids_accepted};
use super::vtpm::{
    explicit0_octet, opt_view, AmdAzureVtpmQuoteV1, AmdAzureVtpmQuoteWithJwtV1, AmdSevAttestationV1,
    AmdVtpmQuoteV1, AssociatedDataPCRV1, EphemeralKeyV1, TpmQuoteV1,
};
use super::{
    distinct_attestations, octet_strings, set_der, sorted_by_der, CoprocessorAttestationSetV1,
    CoprocessorModel,
};
use crate::der::{
    all_elements, concat_all, lemma_concat_small, lemma_tlv_is_element, read_constructed, read_whole,
    tlv, views, Asn1Error,
};
use crate::document::{all_documents, der_document_accepts};
use crate::sev::csr_formats::{report_and_evidence_der, ReportAndEvidence};

verus! {

/// Certificates that can be read back: complete elements that `der`
/// accepts as documents.
pub open spec fn certs_ok(cs: Seq<Seq<u8>>) -> bool {
    &&& all_elements(cs)
    &&& forall|i: int| 0 <= i < cs.len() ==> der_document_accepts(#[trigger] cs[i])
}

/// A coprocessor set that can be read back as it is: sorted, free of
/// repeats, with OIDs that `der` accepts.
pub open spec fn set_readable(ms: Seq<CoprocessorModel>) -> bool {
    &&& sorted_by_der(ms)
    &&& oids_accepted(ms)
    &&& distinct_attestations(ms)
}

/// Reads a SEQUENCE OF Certificate that fills the whole of `b`.
fn read_certificates(b: &[u8]) -> (r: Option<Vec<Vec<u8>>>)
    ensures
        r matches Some(v) ==> certs_ok(views(v@)) && tlv(0x30, concat_all(views(v@))) == b@,
        forall|cs: Seq<Seq<u8>>|
            certs_ok(cs) && #[trigger] tlv(0x30, concat_all(cs)) == b@ ==> (r matches Some(v) && views(v@)
                == cs),
{
    let v = read_constructed(b, 0x30)?;
    if !all_documents(&v) {
        proof {
            assert forall|cs: Seq<Seq<u8>>|
                certs_ok(cs) && #[trigger] tlv(0x30, concat_all(cs)) == b@ implies false by {
                let k = choose|k: int| 0 <= k < v@.len() && !der_document_accepts(v@[k]@);
                assert(views(v@)[k] == v@[k]@);
            }
        }
        return None;
    }
    proof {
        assert forall|i: int| 0 <= i < views(v@).len() implies der_document_accepts(#[trigger] views(v@)[i]) by {
            assert(views(v@)[i] == v@[i]@);
        }
    }
    Some(v)
}

/// Reads a SEQUENCE OF OCTET STRING that fills the whole of `b`.
fn read_octet_strings(b: &[u8]) -> (r: Option<Vec<Vec<u8>>>)
    ensures
        r matches Some(v) ==> tlv(0x30, concat_all(octet_strings(views(v@)))) == b@,
        forall|data: Seq<Seq<u8>>|
            #[trigger] tlv(0x30, concat_all(octet_strings(data))) == b@ ==> (r matches Some(v) && views(v@)
                == data),
{
    let elems = match read_constructed(b, 0x30) {
        Some(e) => e,
        None => {
            proof {
                assert forall|data: Seq<Seq<u8>>|
                    #[trigger] tlv(0x30, concat_all(octet_strings(data))) == b@ implies false by {
                    super::decode::lemma_octet_strings_are_elements(data);
                }
            }
            return None;
        },
    };
    let r = octet_contents(&elems);
    proof {
        assert forall|data: Seq<Seq<u8>>|
            #[trigger] tlv(0x30, concat_all(octet_strings(data))) == b@ implies views(elems@) == octet_strings(
                data,
            ) by {
            super::decode::lemma_octet_strings_are_elements(data);
        }
    }
    r
}

impl EphemeralKeyV1 {
    /// The three keys' contents.
    pub open spec fn model(&self) -> (Seq<u8>, Seq<u8>, Seq<u8>) {
        (self.encryption_key@, self.certify_info@, self.certify_info_signature@)
    }

    /// Reads the keys from the whole of `b`.
    pub fn from_der(b: &[u8]) -> (r: Result<Self, Asn1Error>)
        ensures
            r matches Ok(x) ==> x.der() == b@,
            forall|y: Self| #[trigger] y.der() == b@ ==> (r matches Ok(x) && x.model() == y.model()),
    {
        proof {
            assert forall|y: Self| #[trigger] y.der() == b@ implies all_elements(
                seq![tlv(0x04, y.encryption_key@), tlv(0x04, y.certify_info@), tlv(0x04, y.certify_info_signature@)],
            ) && tlv(0x30, concat_all(seq![tlv(0x04, y.encryption_key@), tlv(0x04, y.certify_info@), tlv(0x04, y.certify_info_signature@)])) == b@ by {
                let f = seq![tlv(0x04, y.encryption_key@), tlv(0x04, y.certify_info@), tlv(0x04, y.certify_info_signature@)];
                lemma_concat_small(f[0], f[1], f[2], f[2], f[2], f[2], f[2]);
                lemma_tlv_is_element(0x04, y.encryption_key@);
                lemma_tlv_is_element(0x04, y.certify_info@);
                lemma_tlv_is_element(0x04, y.certify_info_signature@);
            }
        }
        let fields = match read_constructed(b, 0x30) {
            Some(f) => f,
            None => {
                return Err(Asn1Error);
            },
        };
        if fields.len() != 3 {
            return Err(Asn1Error);
        }
        let a = match read_whole(fields[0].as_slice(), 0x04) {
            Some(v) => v,
            None => {
                return Err(Asn1Error);
            },
        };
        let c = match read_whole(fields[1].as_slice(), 0x04) {
            Some(v) => v,
            None => {
                return Err(Asn1Error);
            },
        };
        let s = match read_whole(fields[2].as_slice(), 0x04) {
            Some(v) => v,
            None => {
                return Err(Asn1Error);
            },
        };
        let x = EphemeralKeyV1 { encryption_key: a, certify_info: c, certify_info_signature: s };
        proof {
            let f = views(fields@);
            assert(f =~= seq![f[0], f[1], f[2]]);
            lemma_concat_small(f[0], f[1], f[2], f[2], f[2], f[2], f[2]);
        }
        Ok(x)
    }
}

impl AmdSevAttestationV1 {
    /// The report and the certificates.
    pub open spec fn model(&self) -> (Seq<u8>, Seq<Seq<u8>>) {
        (self.attestation_report@, views(self.certificates@))
    }

    /// Every certificate can be read back.
    pub open spec fn readable(&self) -> bool {
        certs_ok(views(self.certificates@))
    }

    /// Reads the attestation from the whole of `b`.
    pub fn from_der(b: &[u8]) -> (r: Result<Self, Asn1Error>)
        ensures
            r matches Ok(x) ==> x.der() == b@ && x.readable(),
            forall|y: Self| y.readable() && #[trigger] y.der() == b@ ==> (r matches Ok(x) && x.model()
                == y.model()),
    {
        let p = ReportAndEvidence::decode_der(b)?;
        if !all_documents(&p.certificates) {
            proof {
                assert forall|y: Self| y.readable() && #[trigger] y.der() == b@ implies false by {
                    assert(views(p.certificates@) == views(y.certificates@));
                    let k = choose|k: int|
                        0 <= k < p.certificates@.len() && !der_document_accepts(p.certificates@[k]@);
                    assert(views(y.certificates@)[k] == p.certificates@[k]@);
                }
            }
            return Err(Asn1Error);
        }
        let x = AmdSevAttestationV1 { attestation_report: p.report, certificates: p.certificates };
        proof {
            assert forall|i: int| 0 <= i < views(x.certificates@).len() implies der_document_accepts(
                #[trigger] views(x.certificates@)[i],
            ) by {
                assert(views(x.certificates@)[i] == x.certificates@[i]@);
            }
        }
        Ok(x)
    }
}

impl TpmQuoteV1 {
    /// The contents of the fields, in order.
    pub open spec fn model(&self) -> (Seq<u8>, Seq<u8>, Seq<u8>, Seq<Seq<u8>>, Seq<u8>, Seq<Seq<u8>>, Seq<u8>) {
        (
            self.message@,
            self.signature@,
            self.signature_algorithm@,
            views(self.pcrs@),
            self.uefi_event_log@,
            views(self.certificates@),
            self.ak_pub@,
        )
    }

    /// Every certificate can be read back.
    pub open spec fn readable(&self) -> bool {
        certs_ok(views(self.certificates@))
    }

    /// The encodings of the fields, in order.
    pub open spec fn field_ders(&self) -> Seq<Seq<u8>> {
        seq![
            tlv(0x04, self.message@),
            tlv(0x04, self.signature@),
            tlv(0x04, self.signature_algorithm@),
            tlv(0x30, concat_all(octet_strings(views(self.pcrs@)))),
            tlv(0x04, self.uefi_event_log@),
            tlv(0x30, concat_all(views(self.certificates@))),
            tlv(0x04, self.ak_pub@),
        ]
    }

    /// The encoding is the SEQUENCE of the fields' encodings, each a
    /// complete element.
    pub proof fn lemma_fields(&self)
        ensures
            all_elements(self.field_ders()),
            self.der() == tlv(0x30, concat_all(self.field_ders())),
    {
        let f = self.field_ders();
        lemma_concat_small(f[0], f[1], f[2], f[3], f[4], f[5], f[6]);
        assert forall|i: int| 0 <= i < f.len() implies crate::der::is_element(#[trigger] f[i]) by {
            assert(f[i][0] == if i == 3 || i == 5 { 0x30u8 } else { 0x04u8 });
        }
    }

    /// Reads the quote from the whole of `b`.
    #[verifier::rlimit(60)]
    pub fn from_der(b: &[u8]) -> (r: Result<Self, Asn1Error>)
        ensures
            r matches Ok(x) ==> x.der() == b@ && x.readable(),
            forall|y: Self| y.readable() && #[trigger] y.der() == b@ ==> (r matches Ok(x) && x.model()
                == y.model()),
    {
        let fields = match read_constructed(b, 0x30) {
            Some(f) => f,
            None => {
                proof {
                    assert forall|y: Self| y.readable() && #[trigger] y.der() == b@ implies false by {
                        y.lemma_fields();
                    }
                }
                return Err(Asn1Error);
            },
        };
        proof {
            assert forall|y: Self| y.readable() && #[trigger] y.der() == b@ implies views(fields@)
                == y.field_ders() by {
                y.lemma_fields();
            }
        }
        if fields.len() != 7 {
            return Err(Asn1Error);
        }
        let message = match read_whole(fields[0].as_slice(), 0x04) {
            Some(v) => v,
            None => {
                return Err(Asn1Error);
            },
        };
        let signature = match read_whole(fields[1].as_slice(), 0x04) {
            Some(v) => v,
            None => {
                return Err(Asn1Error);
            },
        };
        let signature_algorithm = match read_whole(fields[2].as_slice(), 0x04) {
            Some(v) => v,
            None => {
                return Err(Asn1Error);
            },
        };
        let pcrs = match read_octet_strings(fields[3].as_slice()) {
            Some(v) => v,
            None => {
                return Err(Asn1Error);
            },
        };
        let uefi_event_log = match read_whole(fields[4].as_slice(), 0x04) {
            Some(v) => v,
            None => {
                return Err(Asn1Error);
            },
        };
        let certificates = match read_certificates(fields[5].as_slice()) {
            Some(v) => v,
            None => {
                return Err(Asn1Error);
            },
        };
        let ak_pub = match read_whole(fields[6].as_slice(), 0x04) {
            Some(v) => v,
            None => {
                return Err(Asn1Error);
            },
        };
        let x = TpmQuoteV1 {
            message,
            signature,
            signature_algorithm,
            pcrs,
            uefi_event_log,
            certificates,
            ak_pub,
        };
        proof {
            let f = views(fields@);
            assert(f =~= x.field_ders());
            x.lemma_fields();
        }
        Ok(x)
    }
}

/// The encoding of a coprocessor set is a complete element.
proof fn lemma_set_is_element(ms: Seq<CoprocessorModel>)
    ensures
        crate::der::is_element(set_der(ms)),
{
    lemma_tlv_is_element(0x31, concat_all(super::encodings(ms)));
}

/// The contents of a vTPM quote's fields, in order.
pub type QuoteModel = (Seq<u8>, Seq<u8>, Seq<u8>, Seq<Seq<u8>>, Seq<u8>, Seq<Seq<u8>>, Seq<u8>);

/// The contents of an AMD SEV-SNP attestation: report and certificates.
pub type AmdModel = (Seq<u8>, Seq<Seq<u8>>);

/// The DER encoding of a vTPM quote with these field contents.
pub open spec fn quote_der(q: QuoteModel) -> Seq<u8> {
    tlv(
        0x30,
        tlv(0x04, q.0) + tlv(0x04, q.1) + tlv(0x04, q.2) + tlv(0x30, concat_all(octet_strings(q.3)))
            + tlv(0x04, q.4) + tlv(0x30, concat_all(q.5)) + tlv(0x04, q.6),
    )
}

/// The DER encoding of an AMD vTPM quote with these parts, the
/// coprocessor attestations in the order given.
pub open spec fn vtpm_quote_der(amd: AmdModel, quote: QuoteModel, ms: Seq<CoprocessorModel>) -> Seq<u8> {
    tlv(0x30, report_and_evidence_der(amd.0, amd.1) + quote_der(quote) + set_der(ms))
}

impl AmdVtpmQuoteV1 {
    /// The attestation's, the quote's and the set's contents.
    pub open spec fn model(&self) -> (AmdModel, QuoteModel, Seq<CoprocessorModel>) {
        (self.amd.model(), self.quote.model(), self.coprocessors.elements())
    }

    /// Every part can be read back.
    pub open spec fn readable(&self) -> bool {
        self.amd.readable() && self.quote.readable() && set_readable(self.coprocessors.elements())
    }

    /// The encodings of the fields, in order.
    pub open spec fn field_ders(&self) -> Seq<Seq<u8>> {
        seq![self.amd.der(), self.quote.der(), set_der(self.coprocessors.elements())]
    }

    /// The encoding is the SEQUENCE of the fields' encodings, each a
    /// complete element.
    pub proof fn lemma_fields(&self)
        ensures
            all_elements(self.field_ders()),
            self.der() == tlv(0x30, concat_all(self.field_ders())),
    {
        let f = self.field_ders();
        lemma_concat_small(f[0], f[1], f[2], f[2], f[2], f[2], f[2]);
        lemma_tlv_is_element(
            0x30,
            tlv(0x04, self.amd.attestation_report@) + tlv(0x30, concat_all(views(self.amd.certificates@))),
        );
        self.quote.lemma_fields();
        lemma_tlv_is_element(0x30, concat_all(self.quote.field_ders()));
        lemma_set_is_element(self.coprocessors.elements());
        assert forall|i: int| 0 <= i < f.len() implies crate::der::is_element(#[trigger] f[i]) by {}
    }

    /// Reads the quote from the whole of `b`; the coprocessor attestations
    /// may come in any order, and are sorted as they are read.
    pub fn from_der(b: &[u8]) -> (r: Result<Self, Asn1Error>)
        ensures
            r matches Ok(x) ==> x.amd.readable() && x.quote.readable() && exists|ms: Seq<CoprocessorModel>|
                oids_accepted(ms) && ms.to_multiset() == x.coprocessors.elements().to_multiset()
                    && #[trigger] vtpm_quote_der(x.amd.model(), x.quote.model(), ms) == b@,
            forall|y: Self| y.readable() && #[trigger] y.der() == b@ ==> (r matches Ok(x) && x.model()
                == y.model()),
    {
        let fields = match read_constructed(b, 0x30) {
            Some(f) => f,
            None => {
                proof {
                    assert forall|y: Self| y.readable() && #[trigger] y.der() == b@ implies false by {
                        y.lemma_fields();
                    }
                }
                return Err(Asn1Error);
            },
        };
        proof {
            assert forall|y: Self| y.readable() && #[trigger] y.der() == b@ implies views(fields@)
                == y.field_ders() by {
                y.lemma_fields();
            }
        }
        if fields.len() != 3 {
            return Err(Asn1Error);
        }
        let ghost f = views(fields@);
        let amd = AmdSevAttestationV1::from_der(fields[0].as_slice())?;
        let quote = TpmQuoteV1::from_der(fields[1].as_slice())?;
        let coprocessors = CoprocessorAttestationSetV1::from_der(fields[2].as_slice())?;
        let x = AmdVtpmQuoteV1 { amd, quote, coprocessors };
        proof {
            assert(f =~= seq![f[0], f[1], f[2]]);
            lemma_concat_small(f[0], f[1], f[2], f[2], f[2], f[2], f[2]);
            let ms = choose|ms: Seq<CoprocessorModel>|
                oids_accepted(ms) && #[trigger] set_der(ms) == f[2] && ms.to_multiset()
                    == x.coprocessors.elements().to_multiset();
            assert(vtpm_quote_der(x.amd.model(), x.quote.model(), ms) == b@);
        }
        Ok(x)
    }
}

/// The DER encoding of ephemeral keys with these contents.
pub open spec fn ephemeral_key_der(e: (Seq<u8>, Seq<u8>, Seq<u8>)) -> Seq<u8> {
    tlv(0x30, tlv(0x04, e.0) + tlv(0x04, e.1) + tlv(0x04, e.2))
}

/// The DER encoding of an Azure vTPM quote with these parts.
pub open spec fn azure_quote_der(
    amd: AmdModel,
    quote: QuoteModel,
    ms: Seq<CoprocessorModel>,
    hcl: Seq<u8>,
    key: (Seq<u8>, Seq<u8>, Seq<u8>),
) -> Seq<u8> {
    tlv(0x30, vtpm_quote_der(amd, quote, ms) + tlv(0x04, hcl) + ephemeral_key_der(key))
}

impl AmdAzureVtpmQuoteV1 {
    /// The contents of the parts.
    pub open spec fn model(&self) -> ((AmdModel, QuoteModel, Seq<CoprocessorModel>), Seq<u8>, (Seq<u8>, Seq<u8>, Seq<u8>)) {
        (self.quote.model(), self.hcl_report_variable_data@, self.ephemeral_key.model())
    }

    /// Every part can be read back.
    pub open spec fn readable(&self) -> bool {
        self.quote.readable()
    }

    /// The encodings of the fields, in order.
    pub open spec fn field_ders(&self) -> Seq<Seq<u8>> {
        seq![self.quote.der(), tlv(0x04, self.hcl_report_variable_data@), self.ephemeral_key.der()]
    }

    /// The encoding is the SEQUENCE of the fields' encodings, each a
    /// complete element.
    pub proof fn lemma_fields(&self)
        ensures
            all_elements(self.field_ders()),
            self.der() == tlv(0x30, concat_all(self.field_ders())),
    {
        let f = self.field_ders();
        lemma_concat_small(f[0], f[1], f[2], f[2], f[2], f[2], f[2]);
        self.quote.lemma_fields();
        lemma_tlv_is_element(0x30, concat_all(self.quote.field_ders()));
        lemma_tlv_is_element(0x04, self.hcl_report_variable_data@);
        lemma_tlv_is_element(
            0x30,
            tlv(0x04, self.ephemeral_key.encryption_key@) + tlv(0x04, self.ephemeral_key.certify_info@)
                + tlv(0x04, self.ephemeral_key.certify_info_signature@),
        );
        assert forall|i: int| 0 <= i < f.len() implies crate::der::is_element(#[trigger] f[i]) by {}
    }

    /// Reads the quote from the whole of `b`; the coprocessor attestations
    /// may come in any order, and are sorted as they are read.
    pub fn from_der(b: &[u8]) -> (r: Result<Self, Asn1Error>)
        ensures
            r matches Ok(x) ==> x.quote.amd.readable() && x.quote.quote.readable() && exists|
                ms: Seq<CoprocessorModel>,
            |
                oids_accepted(ms) && ms.to_multiset() == x.quote.coprocessors.elements().to_multiset()
                    && #[trigger] azure_quote_der(
                    x.quote.amd.model(),
                    x.quote.quote.model(),
                    ms,
                    x.hcl_report_variable_data@,
                    x.ephemeral_key.model(),
                ) == b@,
            forall|y: Self| y.readable() && #[trigger] y.der() == b@ ==> (r matches Ok(x) && x.model()
                == y.model()),
    {
        let fields = match read_constructed(b, 0x30) {
            Some(f) => f,
            None => {
                proof {
                    assert forall|y: Self| y.readable() && #[trigger] y.der() == b@ implies false by {
                        y.lemma_fields();
                    }
                }
                return Err(Asn1Error);
            },
        };
        proof {
            assert forall|y: Self| y.readable() && #[trigger] y.der() == b@ implies views(fields@)
                == y.field_ders() by {
                y.lemma_fields();
            }
        }
        if fields.len() != 3 {
            return Err(Asn1Error);
        }
        let ghost f = views(fields@);
        let quote = AmdVtpmQuoteV1::from_der(fields[0].as_slice())?;
        let hcl_report_variable_data = match read_whole(fields[1].as_slice(), 0x04) {
            Some(v) => v,
            None => {
                return Err(Asn1Error);
            },
        };
        let ephemeral_key = EphemeralKeyV1::from_der(fields[2].as_slice())?;
        let x = AmdAzureVtpmQuoteV1 { quote, hcl_report_variable_data, ephemeral_key };
        proof {
            assert(f =~= seq![f[0], f[1], f[2]]);
            lemma_concat_small(f[0], f[1], f[2], f[2], f[2], f[2], f[2]);
            let ms = choose|ms: Seq<CoprocessorModel>|
                oids_accepted(ms) && ms.to_multiset() == x.quote.coprocessors.elements().to_multiset()
                    && #[trigger] vtpm_quote_der(x.quote.amd.model(), x.quote.quote.model(), ms) == f[0];
            assert(azure_quote_der(
                x.quote.amd.model(),
                x.quote.quote.model(),
                ms,
                x.hcl_report_variable_data@,
                x.ephemeral_key.model(),
            ) == b@);
        }
        Ok(x)
    }
}

impl AmdAzureVtpmQuoteWithJwtV1 {
    /// The contents of the parts.
    pub open spec fn model(&self) -> (((AmdModel, QuoteModel, Seq<CoprocessorModel>), Seq<u8>, (Seq<u8>, Seq<u8>, Seq<u8>)), Seq<u8>) {
        (self.quote.model(), self.maa_jwt@)
    }

    /// Every part can be read back.
    pub open spec fn readable(&self) -> bool {
        self.quote.readable()
    }

    /// The encodings of the fields, in order.
    pub open spec fn field_ders(&self) -> Seq<Seq<u8>> {
        seq![self.quote.der(), tlv(0x04, self.maa_jwt@)]
    }

    /// The encoding is the SEQUENCE of the fields' encodings, each a
    /// complete element.
    pub proof fn lemma_fields(&self)
        ensures
            all_elements(self.field_ders()),
            self.der() == tlv(0x30, concat_all(self.field_ders())),
    {
        let f = self.field_ders();
        lemma_concat_small(f[0], f[1], f[1], f[1], f[1], f[1], f[1]);
        self.quote.lemma_fields();
        lemma_tlv_is_element(0x30, concat_all(self.quote.field_ders()));
        lemma_tlv_is_element(0x04, self.maa_jwt@);
        assert forall|i: int| 0 <= i < f.len() implies crate::der::is_element(#[trigger] f[i]) by {}
    }

    /// Reads the quote and token from the whole of `b`; the coprocessor
    /// attestations may come in any order, and are sorted as they are read.
    pub fn from_der(b: &[u8]) -> (r: Result<Self, Asn1Error>)
        ensures
            r matches Ok(x) ==> x.quote.quote.amd.readable() && x.quote.quote.quote.readable() && exists|
                ms: Seq<CoprocessorModel>,
            |
                oids_accepted(ms) && ms.to_multiset() == x.quote.quote.coprocessors.elements().to_multiset()
                    && tlv(0x30, #[trigger] azure_quote_der(
                    x.quote.quote.amd.model(),
                    x.quote.quote.quote.model(),
                    ms,
                    x.quote.hcl_report_variable_data@,
                    x.quote.ephemeral_key.model(),
                ) + tlv(0x04, x.maa_jwt@)) == b@,
            forall|y: Self| y.readable() && #[trigger] y.der() == b@ ==> (r matches Ok(x) && x.model()
                == y.model()),
    {
        let fields = match read_constructed(b, 0x30) {
            Some(f) => f,
            None => {
                proof {
                    assert forall|y: Self| y.readable() && #[trigger] y.der() == b@ implies false by {
                        y.lemma_fields();
                    }
                }
                return Err(Asn1Error);
            },
        };
        proof {
            assert forall|y: Self| y.readable() && #[trigger] y.der() == b@ implies views(fields@)
                == y.field_ders() by {
                y.lemma_fields();
            }
        }
        if fields.len() != 2 {
            return Err(Asn1Error);
        }
        let ghost f = views(fields@);
        let quote = AmdAzureVtpmQuoteV1::from_der(fields[0].as_slice())?;
        let maa_jwt = match read_whole(fields[1].as_slice(), 0x04) {
            Some(v) => v,
            None => {
                return Err(Asn1Error);
            },
        };
        let x = AmdAzureVtpmQuoteWithJwtV1 { quote, maa_jwt };
        proof {
            assert(f =~= seq![f[0], f[1]]);
            lemma_concat_small(f[0], f[1], f[1], f[1], f[1], f[1], f[1]);
            let ms = choose|ms: Seq<CoprocessorModel>|
                oids_accepted(ms) && ms.to_multiset() == x.quote.quote.coprocessors.elements().to_multiset()
                    && #[trigger] azure_quote_der(
                    x.quote.quote.amd.model(),
                    x.quote.quote.quote.model(),
                    ms,
                    x.quote.hcl_report_variable_data@,
                    x.quote.ephemeral_key.model(),
                ) == f[0];
            assert(tlv(0x30, azure_quote_der(
                x.quote.quote.amd.model(),
                x.quote.quote.quote.model(),
                ms,
                x.quote.hcl_report_variable_data@,
                x.quote.ephemeral_key.model(),
            ) + tlv(0x04, x.maa_jwt@)) == b@);
        }
        Ok(x)
    }
}

/// The DER encoding of PCR-bound associated data with these contents, the
/// coprocessor attestations in the order given.
pub open spec fn associated_data_der(
    join_token: Seq<u8>,
    spki: Seq<u8>,
    ms: Seq<CoprocessorModel>,
    appconfig_id: Option<Seq<u8>>,
) -> Seq<u8> {
    tlv(0x30, tlv(0x04, join_token) + tlv(0x04, spki) + set_der(ms) + explicit0_octet(appconfig_id))
}

/// The DER encoding of the report data of a bare-metal guest with these
/// contents, the coprocessor attestations in the order given.
pub open spec fn report_data_der(spki: Seq<u8>, ms: Seq<CoprocessorModel>, appconfig_id: Option<Seq<u8>>) -> Seq<u8> {
    tlv(0x30, tlv(0x04, spki) + set_der(ms) + explicit0_octet(appconfig_id))
}

/// Reads the optional `[0] EXPLICIT OCTET STRING` from the element `b`.
fn read_explicit0(b: &[u8]) -> (r: Option<Vec<u8>>)
    ensures
        r matches Some(v) ==> tlv(0xa0, tlv(0x04, v@)) == b@,
        forall|a: Seq<u8>| #[trigger] tlv(0xa0, tlv(0x04, a)) == b@ ==> (r matches Some(v) && v@ == a),
{
    let inner = read_whole(b, 0xa0)?;
    read_whole(inner.as_slice(), 0x04)
}

impl AssociatedDataPCRV1 {
    /// The contents of the parts.
    pub open spec fn model(&self) -> (Seq<u8>, Seq<u8>, Seq<CoprocessorModel>, Option<Seq<u8>>) {
        (self.join_token@, self.spki@, self.coprocessors.elements(), opt_view(self.appconfig_id))
    }

    /// The coprocessor set can be read back.
    pub open spec fn readable(&self) -> bool {
        set_readable(self.coprocessors.elements())
    }

    /// The encodings of the fields, in order.
    pub open spec fn field_ders(&self) -> Seq<Seq<u8>> {
        match opt_view(self.appconfig_id) {
            Some(a) => seq![
                tlv(0x04, self.join_token@),
                tlv(0x04, self.spki@),
                set_der(self.coprocessors.elements()),
                tlv(0xa0, tlv(0x04, a)),
            ],
            None => seq![tlv(0x04, self.join_token@), tlv(0x04, self.spki@), set_der(self.coprocessors.elements())],
        }
    }

    /// The encoding is the SEQUENCE of the fields' encodings, each a
    /// complete element.
    pub proof fn lemma_fields(&self)
        ensures
            all_elements(self.field_ders()),
            self.der() == tlv(0x30, concat_all(self.field_ders())),
    {
        let f = self.field_ders();
        lemma_tlv_is_element(0x04, self.join_token@);
        lemma_tlv_is_element(0x04, self.spki@);
        lemma_set_is_element(self.coprocessors.elements());
        match opt_view(self.appconfig_id) {
            Some(a) => {
                assert(f =~= seq![f[0], f[1], f[2], f[3]]);
                lemma_concat_small(f[0], f[1], f[2], f[3], f[3], f[3], f[3]);
                lemma_tlv_is_element(0xa0, tlv(0x04, a));
            },
            None => {
                assert(f =~= seq![f[0], f[1], f[2]]);
                lemma_concat_small(f[0], f[1], f[2], f[2], f[2], f[2], f[2]);
                assert(explicit0_octet(opt_view(self.appconfig_id)) =~= Seq::<u8>::empty());
            },
        }
        assert forall|i: int| 0 <= i < f.len() implies crate::der::is_element(#[trigger] f[i]) by {}
    }

    /// Reads the associated data from the whole of `b`; the coprocessor
    /// attestations may come in any order, and are sorted as they are read.
    #[verifier::rlimit(80)]
    pub fn from_der(b: &[u8]) -> (r: Result<Self, Asn1Error>)
        ensures
            r matches Ok(x) ==> exists|ms: Seq<CoprocessorModel>|
                oids_accepted(ms) && ms.to_multiset() == x.coprocessors.elements().to_multiset()
                    && #[trigger] associated_data_der(x.join_token@, x.spki@, ms, opt_view(x.appconfig_id))
                    == b@,
            forall|y: Self| y.readable() && #[trigger] y.der() == b@ ==> (r matches Ok(x) && x.model()
                == y.model()),
    {
        let fields = match read_constructed(b, 0x30) {
            Some(f) => f,
            None => {
                proof {
                    assert forall|y: Self| y.readable() && #[trigger] y.der() == b@ implies false by {
                        y.lemma_fields();
                    }
                }
                return Err(Asn1Error);
            },
        };
        proof {
            assert forall|y: Self| y.readable() && #[trigger] y.der() == b@ implies views(fields@)
                == y.field_ders() by {
                y.lemma_fields();
            }
        }
        if fields.len() != 3 && fields.len() != 4 {
            return Err(Asn1Error);
        }
        let ghost f = views(fields@);
        let join_token = match read_whole(fields[0].as_slice(), 0x04) {
            Some(v) => v,
            None => {
                return Err(Asn1Error);
            },
        };
        let spki = match read_whole(fields[1].as_slice(), 0x04) {
            Some(v) => v,
            None => {
                return Err(Asn1Error);
            },
        };
        let coprocessors = CoprocessorAttestationSetV1::from_der(fields[2].as_slice())?;
        let appconfig_id = if fields.len() == 4 {
            match read_explicit0(fields[3].as_slice()) {
                Some(v) => Some(v),
                None => {
                    return Err(Asn1Error);
                },
            }
        } else {
            None
        };
        let x = AssociatedDataPCRV1 { join_token, spki, coprocessors, appconfig_id };
        proof {
            let ms = choose|ms: Seq<CoprocessorModel>|
                oids_accepted(ms) && #[trigger] set_der(ms) == f[2] && ms.to_multiset()
                    == x.coprocessors.elements().to_multiset();
            if f.len() == 4 {
                assert(f =~= seq![f[0], f[1], f[2], f[3]]);
                lemma_concat_small(f[0], f[1], f[2], f[3], f[3], f[3], f[3]);
            } else {
                assert(f =~= seq![f[0], f[1], f[2]]);
                lemma_concat_small(f[0], f[1], f[2], f[2], f[2], f[2], f[2]);
                assert(explicit0_octet(opt_view(x.appconfig_id)) =~= Seq::<u8>::empty());
            }
            assert(associated_data_der(x.join_token@, x.spki@, ms, opt_view(x.appconfig_id)) == b@);
            assert forall|y: Self| y.readable() && #[trigger] y.der() == b@ implies x.model() == y.model() by {
                y.lemma_fields();
                if y.appconfig_id is Some {
                    assert(y.field_ders().len() == 4);
                } else {
                    assert(y.field_ders().len() == 3);
                }
            }
        }
        Ok(x)
    }
}

impl ReportDataV1 {
    /// The contents of the parts.
    pub open spec fn model(&self) -> (Seq<u8>, Seq<CoprocessorModel>, Option<Seq<u8>>) {
        (self.spki@, self.coprocessors.elements(), opt_view(self.appconfig_id))
    }

    /// The coprocessor set can be read back.
    pub open spec fn readable(&self) -> bool {
        set_readable(self.coprocessors.elements())
    }

    /// The encodings of the fields, in order.
    pub open spec fn field_ders(&self) -> Seq<Seq<u8>> {
        match opt_view(self.appconfig_id) {
            Some(a) => seq![tlv(0x04, self.spki@), set_der(self.coprocessors.elements()), tlv(0xa0, tlv(0x04, a))],
            None => seq![tlv(0x04, self.spki@), set_der(self.coprocessors.elements())],
        }
    }

    /// The encoding is the SEQUENCE of the fields' encodings, each a
    /// complete element.
    pub proof fn lemma_fields(&self)
        ensures
            all_elements(self.field_ders()),
            self.der() == tlv(0x30, concat_all(self.field_ders())),
    {
        let f = self.field_ders();
        lemma_tlv_is_element(0x04, self.spki@);
        lemma_set_is_element(self.coprocessors.elements());
        match opt_view(self.appconfig_id) {
            Some(a) => {
                assert(f =~= seq![f[0], f[1], f[2]]);
                lemma_concat_small(f[0], f[1], f[2], f[2], f[2], f[2], f[2]);
                lemma_tlv_is_element(0xa0, tlv(0x04, a));
            },
            None => {
                assert(f =~= seq![f[0], f[1]]);
                lemma_concat_small(f[0], f[1], f[1], f[1], f[1], f[1], f[1]);
                assert(explicit0_octet(opt_view(self.appconfig_id)) =~= Seq::<u8>::empty());
            },
        }
        assert forall|i: int| 0 <= i < f.len() implies crate::der::is_element(#[trigger] f[i]) by {}
    }

    /// Reads the report data from the whole of `b`; the coprocessor
    /// attestations may come in any order, and are sorted as they are read.
    #[verifier::rlimit(80)]
    pub fn from_der(b: &[u8]) -> (r: Result<Self, Asn1Error>)
        ensures
            r matches Ok(x) ==> exists|ms: Seq<CoprocessorModel>|
                oids_accepted(ms) && ms.to_multiset() == x.coprocessors.elements().to_multiset()
                    && #[trigger] report_data_der(x.spki@, ms, opt_view(x.appconfig_id)) == b@,
            forall|y: Self| y.readable() && #[trigger] y.der() == b@ ==> (r matches Ok(x) && x.model()
                == y.model()),
    {
        let fields = match read_constructed(b, 0x30) {
            Some(f) => f,
            None => {
                proof {
                    assert forall|y: Self| y.readable() && #[trigger] y.der() == b@ implies false by {
                        y.lemma_fields();
                    }
                }
                return Err(Asn1Error);
            },
        };
        proof {
            assert forall|y: Self| y.readable() && #[trigger] y.der() == b@ implies views(fields@)
                == y.field_ders() by {
                y.lemma_fields();
            }
        }
        if fields.len() != 2 && fields.len() != 3 {
            return Err(Asn1Error);
        }
        let ghost f = views(fields@);
        let spki = match read_whole(fields[0].as_slice(), 0x04) {
            Some(v) => v,
            None => {
                return Err(Asn1Error);
            },
        };
        let coprocessors = CoprocessorAttestationSetV1::from_der(fields[1].as_slice())?;
        let appconfig_id = if fields.len() == 3 {
            match read_explicit0(fields[2].as_slice()) {
                Some(v) => Some(v),
                None => {
                    return Err(Asn1Error);
                },
            }
        } else {
            None
        };
        let x = ReportDataV1 { spki, coprocessors, appconfig_id };
        proof {
            let ms = choose|ms: Seq<CoprocessorModel>|
                oids_accepted(ms) && #[trigger] set_der(ms) == f[1] && ms.to_multiset()
                    == x.coprocessors.elements().to_multiset();
            if f.len() == 3 {
                assert(f =~= seq![f[0], f[1], f[2]]);
                lemma_concat_small(f[0], f[1], f[2], f[2], f[2], f[2], f[2]);
            } else {
                assert(f =~= seq![f[0], f[1]]);
                lemma_concat_small(f[0], f[1], f[1], f[1], f[1], f[1], f[1]);
                assert(explicit0_octet(opt_view(x.appconfig_id)) =~= Seq::<u8>::empty());
            }
            assert(report_data_der(x.spki@, ms, opt_view(x.appconfig_id)) == b@);
            assert forall|y: Self| y.readable() && #[trigger] y.der() == b@ implies x.model() == y.model() by {
                y.lemma_fields();
                if y.appconfig_id is Some {
                    assert(y.field_ders().len() == 3);
                } else {
                    assert(y.field_ders().len() == 2);
                }
            }
        }
        Ok(x)
    }
}

} // verus!
