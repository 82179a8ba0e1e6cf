//! Intel TDX attestation: the TDREPORT layout, the measurements and report
//! MAC taken apart from it, and their DER encodings.
//!
//! ```asn1
//! TeeReportMac ::= OCTET STRING
//! TdxReportMeasurements ::= SEQUENCE {
//!    report_version          INTEGER,
//!    tee_tcb_info            OCTET STRING,
//!    td_info                 OCTET STRING,
//!    coprocessors            CoprocessorAttestationSetV1
//! }
//! ```

pub mod guest;

use vstd::prelude::*;

use crate::der::{
    copy_range, expect_tlv, is_element, lemma_split, lemma_tlv_content, push_tlv, push_u8_integer, read_prefixed, read_prefixed_element, read_u8_integer, tlv,
    u8_integer_content, Asn1Error, DER_MAX_LEN,
};
use crate::ber::{
    ber_constructed, ber_constructed_length, ber_length_of, ber_tlv, expect_ber_constructed_whole, expect_ber_tlv,
    lemma_ber_tlv_content, lemma_der_length_is_ber, read_ber_prefixed,
};
use crate::der::length_bytes;
use crate::text::{starts_with_context, with_detail};
use crate::tpm_snp::csr_format::decode::oids_accepted;
use crate::tpm_snp::csr_format::{
    distinct_attestations, encodings, set_der, CoprocessorAttestationSetV1, CoprocessorModel,
};

verus! {

/// Everything that can go wrong with TDX attestation.
#[derive(Debug)]
pub enum AttestationErr {
    InvalidBufferSize(usize, usize),
    FailedObtainingTdReport(String),
    ReportVerificationError(String),
    ReportDataGenerationError(String),
    InvalidOperation(String),
}

/// Size of a TDREPORT (report type version 0 or 1).
pub const TDX_REPORT_SIZE: usize = 1024;
/// Size of the REPORTMACSTRUCT at the start of a TDREPORT.
pub const REPORT_MAC_SIZE: usize = 256;
/// Size of TEE_TCB_INFO, at offset 256 of a TDREPORT.
pub const TEE_TCB_INFO_SIZE: usize = 239;
/// Size of TDINFO_STRUCT, at offset 512 of a TDREPORT.
pub const TD_INFO_SIZE: usize = 512;

/// A TDREPORT as the `TDG.MR.REPORT` call writes it: REPORTMACSTRUCT at 0
/// (its report type version at byte 2), TEE_TCB_INFO at 256, reserved bytes
/// at 495, TDINFO_STRUCT at 512.
#[derive(Debug)]
pub struct TdxReportV1 {
    bytes: Vec<u8>,
}

impl Clone for TdxReportV1 {
    fn clone(&self) -> (r: Self)
        ensures
            r.bytes() == self.bytes(),
    {
        proof {
            use_type_invariant(self);
        }
        TdxReportV1 { bytes: copy_range(self.bytes.as_slice(), 0, self.bytes.len()) }
    }
}

impl TdxReportV1 {
    #[verifier::type_invariant]
    spec fn size_inv(self) -> bool {
        self.bytes@.len() == TDX_REPORT_SIZE
    }

    /// The report bytes.
    pub closed spec fn bytes(self) -> Seq<u8> {
        self.bytes@
    }

    /// The report bytes; always [`TDX_REPORT_SIZE`] of them.
    pub fn as_slice(&self) -> (r: &[u8])
        ensures
            r@ == self.bytes(),
            r@.len() == TDX_REPORT_SIZE,
    {
        proof {
            use_type_invariant(self);
        }
        self.bytes.as_slice()
    }
}

/// The report type version of a TDREPORT.
pub open spec fn report_version(report: Seq<u8>) -> u8 {
    report[2]
}

/// The report type versions of TDREPORTs with this layout: 0 (no bound) and
/// 1 (service TD used).
pub open spec fn is_accepted_version(version: u8) -> bool {
    version == 0 || version == 1
}

/// The TDX report type handled here: report type version 0 or 1.
pub struct TdxReportVersion1;

impl TdxReportVersion1 {
    /// The accepted report type versions.
    pub fn accepted_versions() -> (r: Vec<u8>)
        ensures
            r@ == seq![0u8, 1u8],
    {
        let r = vec![0u8, 1u8];
        assert(r@ =~= seq![0u8, 1u8]);
        r
    }

    /// Whether a report type version has this layout.
    pub fn accepted_version(version: u8) -> (r: bool)
        ensures
            r == is_accepted_version(version),
    {
        let versions = Self::accepted_versions();
        let mut i: usize = 0;
        while i < versions.len()
            invariant
                versions@ == seq![0u8, 1u8],
                i <= versions@.len(),
                forall|j: int| 0 <= j < i ==> versions@[j] != version,
            decreases versions@.len() - i,
        {
            if versions[i] == version {
                return true;
            }
            i = i + 1;
        }
        assert(versions@[0] != version && versions@[1] != version);
        false
    }

    /// Whether the report's own type version has this layout.
    pub fn accepted_report(report: &TdxReportV1) -> (r: bool)
        ensures
            r == is_accepted_version(report_version(report.bytes())),
    {
        proof {
            use_type_invariant(report);
        }
        Self::accepted_version(report.bytes[2])
    }

    /// The TDINFO_STRUCT of a report.
    pub fn td_info_from_report(report: &TdxReportV1) -> (r: &[u8])
        ensures
            r@ == report.bytes().subrange(512, 1024),
    {
        proof {
            use_type_invariant(report);
        }
        vstd::slice::slice_subrange(report.bytes.as_slice(), 512, 1024)
    }

    /// The TEE_TCB_INFO of a report.
    pub fn tee_tcb_info_from_report(report: &TdxReportV1) -> (r: &[u8])
        ensures
            r@ == report.bytes().subrange(256, 495),
    {
        proof {
            use_type_invariant(report);
        }
        vstd::slice::slice_subrange(report.bytes.as_slice(), 256, 495)
    }

    /// The REPORTMACSTRUCT of a report.
    pub fn report_mac_from_report(report: &TdxReportV1) -> (r: &[u8])
        ensures
            r@ == report.bytes().subrange(0, 256),
    {
        proof {
            use_type_invariant(report);
        }
        vstd::slice::slice_subrange(report.bytes.as_slice(), 0, 256)
    }

    /// A TEE_TCB_INFO copied from a slice of exactly its size.
    pub fn tee_tcb_info_from_slice(slice: &[u8]) -> (r: Option<Vec<u8>>)
        ensures
            r is Some <==> slice@.len() == TEE_TCB_INFO_SIZE,
            r matches Some(v) ==> v@ == slice@,
    {
        if slice.len() == TEE_TCB_INFO_SIZE {
            Some(copy_range(slice, 0, slice.len()))
        } else {
            None
        }
    }

    /// A TDINFO_STRUCT copied from a slice of exactly its size.
    pub fn td_info_from_slice(slice: &[u8]) -> (r: Option<Vec<u8>>)
        ensures
            r is Some <==> slice@.len() == TD_INFO_SIZE,
            r matches Some(v) ==> v@ == slice@,
    {
        if slice.len() == TD_INFO_SIZE {
            Some(copy_range(slice, 0, slice.len()))
        } else {
            None
        }
    }

    /// A report copied from bytes captured earlier; they must be exactly a
    /// report's size.
    pub fn generate_mock_report(report_bin: &[u8]) -> (r: Result<TdxReportV1, AttestationErr>)
        ensures
            r is Ok <==> report_bin@.len() == TDX_REPORT_SIZE,
            r matches Ok(rep) ==> rep.bytes() == report_bin@,
            r matches Err(e) ==> e matches AttestationErr::ReportDataGenerationError(m) && m@
                == "cannot copy from bytes"@,
    {
        if report_bin.len() == TDX_REPORT_SIZE {
            Ok(TdxReportV1 { bytes: copy_range(report_bin, 0, report_bin.len()) })
        } else {
            Err(AttestationErr::ReportDataGenerationError("cannot copy from bytes".to_owned()))
        }
    }
}

/// The arcs of the OID that names a TEE report MAC in a CSR.
pub open spec fn tee_report_mac_oid_arcs() -> Seq<u64> {
    seq![1, 3, 6, 1, 4, 1, 49690, 2, 2, 17]
}

/// The arcs of the OID that names TDX report measurements in a CSR.
pub open spec fn tdx_report_measurements_oid_arcs() -> Seq<u64> {
    seq![1, 3, 6, 1, 4, 1, 49690, 2, 2, 18]
}

/// The REPORTMACSTRUCT of a TDREPORT, which carries the MAC over the report.
#[derive(Debug, Clone)]
pub struct TeeReportMac {
    pub mac: Vec<u8>,
}

impl TeeReportMac {
    /// The OID that names this structure in a CSR, as its arcs.
    pub fn oid() -> (r: Vec<u64>)
        ensures
            r@ == tee_report_mac_oid_arcs(),
    {
        let r = vec![1u64, 3, 6, 1, 4, 1, 49690, 2, 2, 17];
        assert(r@ =~= tee_report_mac_oid_arcs());
        r
    }

    /// The REPORTMACSTRUCT bytes.
    pub fn as_ref(&self) -> (r: &[u8])
        ensures
            r@ == self.mac@,
    {
        self.mac.as_slice()
    }

    /// Appends the DER encoding: an OCTET STRING of the structure.
    pub fn write(&self, out: &mut Vec<u8>)
        ensures
            final(out)@ == old(out)@ + tlv(0x04, self.mac@),
    {
        push_tlv(out, 0x04, self.mac.as_slice());
    }

    /// The DER encoding.
    pub fn to_der(&self) -> (out: Vec<u8>)
        ensures
            out@ == tlv(0x04, self.mac@),
    {
        let mut out: Vec<u8> = Vec::new();
        self.write(&mut out);
        assert(out@ =~= tlv(0x04, self.mac@));
        out
    }

    /// The MAC structure as a CSR attribute named by [`TeeReportMac::oid`].
    pub fn to_attribute(&self) -> (a: crate::csr::Attribute)
        ensures
            a.oid@ == tee_report_mac_oid_arcs(),
            crate::der::views(a.value@) == seq![tlv(0x04, self.mac@)],
    {
        crate::csr::Attribute::single(Self::oid(), self.to_der())
    }

    /// Reads the structure from the whole of `b`: an OCTET STRING of exactly
    /// [`REPORT_MAC_SIZE`] bytes, its length in any BER definite form.
    ///
    /// Constructed OCTET STRINGs, and with them indefinite lengths, are refused.
    pub fn decode_ber(b: &[u8]) -> (r: Result<Self, Asn1Error>)
        ensures
            r matches Ok(x) ==> x.mac@.len() == REPORT_MAC_SIZE && exists|lb: Seq<u8>|
                #[trigger] ber_length_of(lb, REPORT_MAC_SIZE as nat) && ber_tlv(0x04, lb, x.mac@) == b@,
            forall|lb: Seq<u8>, c: Seq<u8>|
                c.len() == REPORT_MAC_SIZE && #[trigger] ber_length_of(lb, c.len()) && ber_tlv(0x04, lb, c)
                    == b@ ==> (r matches Ok(x) && x.mac@ == c),
            forall|c: Seq<u8>|
                c.len() == REPORT_MAC_SIZE && #[trigger] tlv(0x04, c) == b@ ==> (r matches Ok(x)
                    && x.mac@ == c),
    {
        let ghost bs = b@;
        let blen = b.len();
        proof {
            assert forall|c: Seq<u8>|
                c.len() == REPORT_MAC_SIZE && #[trigger] tlv(0x04, c) == b@ implies ber_length_of(
                length_bytes(c.len()),
                c.len(),
            ) && ber_tlv(0x04, length_bytes(c.len()), c) == b@ by {
                lemma_der_length_is_ber(0x04, c);
            }
        }
        match expect_ber_tlv(b, 0, 0x04) {
            Some((s, e)) => {
                if e == blen && e - s == REPORT_MAC_SIZE {
                    let mac = copy_range(b, s, e);
                    proof {
                        assert(bs.subrange(0, e as int) =~= bs);
                        assert forall|lb: Seq<u8>, c: Seq<u8>|
                            c.len() == REPORT_MAC_SIZE && #[trigger] ber_length_of(lb, c.len()) && ber_tlv(
                                0x04,
                                lb,
                                c,
                            ) == b@ implies mac@ == c by {
                            assert(bs.subrange(0, 1 + lb.len() as int + c.len()) =~= ber_tlv(0x04, lb, c));
                            assert(bs.subrange(1 + lb.len() as int, bs.len() as int) =~= c);
                        }
                        assert(ber_length_of(bs.subrange(1, s as int), REPORT_MAC_SIZE as nat));
                    }
                    Ok(TeeReportMac { mac })
                } else {
                    proof {
                        assert forall|lb: Seq<u8>, c: Seq<u8>|
                            c.len() == REPORT_MAC_SIZE && #[trigger] ber_length_of(lb, c.len()) && ber_tlv(
                                0x04,
                                lb,
                                c,
                            ) == b@ implies false by {
                            assert(bs.subrange(0, 1 + lb.len() as int + c.len()) =~= ber_tlv(0x04, lb, c));
                        }
                    }
                    Err(Asn1Error)
                }
            },
            None => {
                proof {
                    assert forall|lb: Seq<u8>, c: Seq<u8>|
                        c.len() == REPORT_MAC_SIZE && #[trigger] ber_length_of(lb, c.len()) && ber_tlv(
                            0x04,
                            lb,
                            c,
                        ) == b@ implies false by {
                        assert(bs.subrange(0, 1 + lb.len() as int + c.len()) =~= ber_tlv(0x04, lb, c));
                    }
                }
                Err(Asn1Error)
            },
        }
    }
}

/// The DER encoding of TDX report measurements.
pub open spec fn measurements_der(version: u8, tee: Seq<u8>, td: Seq<u8>, cop: Seq<u8>) -> Seq<u8> {
    tlv(0x30, tlv(0x02, u8_integer_content(version)) + tlv(0x04, tee) + tlv(0x04, td) + cop)
}

/// Measurements that decoding accepts: an accepted report version, a
/// TEE_TCB_INFO and a TDINFO_STRUCT of their sizes, and a coprocessor set
/// that is one complete element.
pub open spec fn measurements_valid(version: u8, tee: Seq<u8>, td: Seq<u8>, cop: Seq<u8>) -> bool {
    &&& is_accepted_version(version)
    &&& tee.len() == TEE_TCB_INFO_SIZE
    &&& td.len() == TD_INFO_SIZE
    &&& is_element(cop)
}

/// The contents of measurements, each length in a BER definite form with
/// the octets `l1`, `l2`, `l3`.
pub open spec fn measurements_contents_ber(
    version: u8,
    tee: Seq<u8>,
    td: Seq<u8>,
    cop: Seq<u8>,
    l1: Seq<u8>,
    l2: Seq<u8>,
    l3: Seq<u8>,
) -> Seq<u8> {
    measurements_head_ber(version, tee, l1, l2) + (ber_tlv(0x04, l3, td) + cop)
}

/// The report version and TEE_TCB_INFO of measurements, their lengths in
/// BER definite forms.
pub open spec fn measurements_head_ber(version: u8, tee: Seq<u8>, l1: Seq<u8>, l2: Seq<u8>) -> Seq<u8> {
    ber_tlv(0x02, l1, u8_integer_content(version)) + ber_tlv(0x04, l2, tee)
}

/// The length octets `l1`, `l2`, `l3` fit the version, TEE_TCB_INFO and
/// TDINFO_STRUCT.
pub open spec fn contents_lengths(version: u8, tee: Seq<u8>, td: Seq<u8>, l1: Seq<u8>, l2: Seq<u8>, l3: Seq<u8>) -> bool {
    &&& ber_length_of(l1, u8_integer_content(version).len())
    &&& ber_length_of(l2, tee.len())
    &&& ber_length_of(l3, td.len())
}

/// A BER encoding of measurements: the SEQUENCE with length octets `l0`,
/// in definite or indefinite form.
pub open spec fn measurements_ber(
    version: u8,
    tee: Seq<u8>,
    td: Seq<u8>,
    cop: Seq<u8>,
    l0: Seq<u8>,
    l1: Seq<u8>,
    l2: Seq<u8>,
    l3: Seq<u8>,
) -> Seq<u8> {
    ber_constructed(0x30, l0, measurements_contents_ber(version, tee, td, cop, l1, l2, l3))
}

/// The length octets of a BER encoding of measurements fit what they
/// frame.
pub open spec fn measurements_lengths(
    version: u8,
    tee: Seq<u8>,
    td: Seq<u8>,
    cop: Seq<u8>,
    l0: Seq<u8>,
    l1: Seq<u8>,
    l2: Seq<u8>,
    l3: Seq<u8>,
) -> bool {
    &&& contents_lengths(version, tee, td, l1, l2, l3)
    &&& ber_constructed_length(l0, measurements_contents_ber(version, tee, td, cop, l1, l2, l3))
}

/// `b` is a BER encoding of the measurements, in some definite length
/// forms.
pub open spec fn is_measurements_encoding(version: u8, tee: Seq<u8>, td: Seq<u8>, cop: Seq<u8>, b: Seq<u8>) -> bool {
    exists|l0: Seq<u8>, l1: Seq<u8>, l2: Seq<u8>, l3: Seq<u8>|
        measurements_lengths(version, tee, td, cop, l0, l1, l2, l3) && #[trigger] measurements_ber(
            version,
            tee,
            td,
            cop,
            l0,
            l1,
            l2,
            l3,
        ) == b
}

/// `c` is a BER encoding of the contents of the measurements.
pub open spec fn is_contents_encoding(version: u8, tee: Seq<u8>, td: Seq<u8>, cop: Seq<u8>, c: Seq<u8>) -> bool {
    exists|l1: Seq<u8>, l2: Seq<u8>, l3: Seq<u8>|
        contents_lengths(version, tee, td, l1, l2, l3) && #[trigger] measurements_contents_ber(
            version,
            tee,
            td,
            cop,
            l1,
            l2,
            l3,
        ) == c
}

/// `h` is a BER encoding of the report version and TEE_TCB_INFO.
pub open spec fn is_head_encoding(version: u8, tee: Seq<u8>, h: Seq<u8>) -> bool {
    exists|l1: Seq<u8>, l2: Seq<u8>|
        ber_length_of(l1, u8_integer_content(version).len()) && ber_length_of(l2, tee.len())
            && #[trigger] measurements_head_ber(version, tee, l1, l2) == h
}

/// `t` is a BER encoding of the TDINFO_STRUCT followed by `cop`.
pub open spec fn is_tail_encoding(td: Seq<u8>, cop: Seq<u8>, t: Seq<u8>) -> bool {
    exists|l3: Seq<u8>| ber_length_of(l3, td.len()) && #[trigger] (ber_tlv(0x04, l3, td) + cop) == t
}

/// The DER encoding of measurements is one of their BER encodings.
proof fn lemma_measurements_der_is_ber(v: u8, tee: Seq<u8>, td: Seq<u8>, cop: Seq<u8>)
    requires
        measurements_der(v, tee, td, cop).len() <= usize::MAX,
    ensures
        ({
            let l1 = length_bytes(u8_integer_content(v).len());
            let l2 = length_bytes(tee.len());
            let l3 = length_bytes(td.len());
            let l0 = length_bytes(measurements_contents_ber(v, tee, td, cop, l1, l2, l3).len());
            &&& measurements_lengths(v, tee, td, cop, l0, l1, l2, l3)
            &&& measurements_ber(v, tee, td, cop, l0, l1, l2, l3) == measurements_der(v, tee, td, cop)
        }),
{
    let i = u8_integer_content(v);
    lemma_der_length_is_ber(0x02, i);
    lemma_der_length_is_ber(0x04, tee);
    lemma_der_length_is_ber(0x04, td);
    let x = tlv(0x02, i) + tlv(0x04, tee) + tlv(0x04, td) + cop;
    assert(measurements_head_ber(v, tee, length_bytes(i.len()), length_bytes(tee.len())) =~= tlv(0x02, i) + tlv(
        0x04,
        tee,
    ));
    assert(x =~= measurements_contents_ber(
        v,
        tee,
        td,
        cop,
        length_bytes(i.len()),
        length_bytes(tee.len()),
        length_bytes(td.len()),
    ));
    lemma_der_length_is_ber(0x30, x);
    let l0 = length_bytes(x.len());
    assert(l0 != seq![0x80u8]) by {
        if l0 == seq![0x80u8] {
            assert(l0[0] == 0x80u8);
        }
    }
}

/// The measurements of a TDREPORT, taken apart from its MAC: the report
/// type version, TEE_TCB_INFO and TDINFO_STRUCT, with the DER encoding of the
/// coprocessor attestations that go with them.
#[derive(Debug, Clone)]
pub struct TdxReportMeasurements {
    pub version: u8,
    pub tee_tcb_info: Vec<u8>,
    pub td_info: Vec<u8>,
    pub coprocessors: Vec<u8>,
}

impl TdxReportMeasurements {
    /// The OID that names this structure in a CSR, as its arcs.
    pub fn oid() -> (r: Vec<u64>)
        ensures
            r@ == tdx_report_measurements_oid_arcs(),
    {
        let r = vec![1u64, 3, 6, 1, 4, 1, 49690, 2, 2, 18];
        assert(r@ =~= tdx_report_measurements_oid_arcs());
        r
    }

    /// The measurements of `report`, with `coprocessors` as the coprocessor
    /// attestations.
    pub fn new_from_report(report: &TdxReportV1, coprocessors: Vec<u8>) -> (m: Self)
        ensures
            m.version == report_version(report.bytes()),
            m.tee_tcb_info@ == report.bytes().subrange(256, 495),
            m.td_info@ == report.bytes().subrange(512, 1024),
            m.coprocessors@ == coprocessors@,
    {
        let bytes = report.as_slice();
        let mac = TdxReportVersion1::report_mac_from_report(report);
        let tee = TdxReportVersion1::tee_tcb_info_from_report(report);
        let td = TdxReportVersion1::td_info_from_report(report);
        TdxReportMeasurements {
            version: mac[2],
            tee_tcb_info: copy_range(tee, 0, tee.len()),
            td_info: copy_range(td, 0, td.len()),
            coprocessors,
        }
    }

    pub fn coprocessors(&self) -> (r: &Vec<u8>)
        ensures
            r@ == self.coprocessors@,
    {
        &self.coprocessors
    }

    pub fn tee_tcb_info(&self) -> (r: &Vec<u8>)
        ensures
            r@ == self.tee_tcb_info@,
    {
        &self.tee_tcb_info
    }

    pub fn td_info(&self) -> (r: &Vec<u8>)
        ensures
            r@ == self.td_info@,
    {
        &self.td_info
    }

    /// Appends the DER encoding to `out`.
    pub fn write(&self, out: &mut Vec<u8>)
        ensures
            final(out)@ == old(out)@ + measurements_der(
                self.version,
                self.tee_tcb_info@,
                self.td_info@,
                self.coprocessors@,
            ),
    {
        let mut inner: Vec<u8> = Vec::new();
        push_u8_integer(&mut inner, self.version);
        push_tlv(&mut inner, 0x04, self.tee_tcb_info.as_slice());
        push_tlv(&mut inner, 0x04, self.td_info.as_slice());
        crate::le::push_bytes(&mut inner, self.coprocessors.as_slice());
        assert(inner@ =~= tlv(0x02, u8_integer_content(self.version)) + tlv(0x04, self.tee_tcb_info@)
            + tlv(0x04, self.td_info@) + self.coprocessors@);
        push_tlv(out, 0x30, inner.as_slice());
    }

    /// The DER encoding.
    pub fn to_der(&self) -> (out: Vec<u8>)
        ensures
            out@ == measurements_der(
                self.version,
                self.tee_tcb_info@,
                self.td_info@,
                self.coprocessors@,
            ),
    {
        let mut out: Vec<u8> = Vec::new();
        self.write(&mut out);
        assert(out@ =~= measurements_der(
            self.version,
            self.tee_tcb_info@,
            self.td_info@,
            self.coprocessors@,
        ));
        out
    }

    /// Reads the measurements from the whole of `b`: a SEQUENCE of the
    /// report version, TEE_TCB_INFO and TDINFO_STRUCT as OCTET STRINGs, and
    /// the coprocessor attestations as one complete DER element, each length
    /// in any BER definite form, the SEQUENCE also in indefinite form. Fails
    /// unless the measurements are valid (see [`measurements_valid`]); a
    /// report version of another layout is refused.
    ///
    /// Constructed OCTET STRINGs are refused.
    #[verifier::spinoff_prover]
    pub fn decode_ber(b: &[u8]) -> (r: Result<Self, Asn1Error>)
        ensures
            r matches Ok(m) ==> measurements_valid(m.version, m.tee_tcb_info@, m.td_info@, m.coprocessors@)
                && is_measurements_encoding(m.version, m.tee_tcb_info@, m.td_info@, m.coprocessors@, b@),
            forall|v: u8, tee: Seq<u8>, td: Seq<u8>, cop: Seq<u8>, l0: Seq<u8>, l1: Seq<u8>, l2: Seq<u8>, l3: Seq<u8>|
                measurements_valid(v, tee, td, cop) && measurements_lengths(v, tee, td, cop, l0, l1, l2, l3)
                    && #[trigger] measurements_ber(v, tee, td, cop, l0, l1, l2, l3) == b@ ==> (r matches Ok(m)
                    && m.version == v && m.tee_tcb_info@ == tee && m.td_info@ == td && m.coprocessors@ == cop),
            forall|v: u8, tee: Seq<u8>, td: Seq<u8>, cop: Seq<u8>|
                measurements_valid(v, tee, td, cop) && #[trigger] measurements_der(v, tee, td, cop)
                    == b@ ==> (r matches Ok(m) && m.version == v && m.tee_tcb_info@ == tee
                    && m.td_info@ == td && m.coprocessors@ == cop),
    {
        let ghost bs = b@;
        let blen = b.len();
        assert(bs.len() == blen);
        assert(bs.subrange(0, bs.len() as int) =~= bs);
        let r = Self::decode_whole(b);
        proof {
            assert forall|v: u8, tee: Seq<u8>, td: Seq<u8>, cop: Seq<u8>|
                measurements_valid(v, tee, td, cop) && #[trigger] measurements_der(v, tee, td, cop)
                    == b@ implies (r matches Ok(m) && m.version == v && m.tee_tcb_info@ == tee
                    && m.td_info@ == td && m.coprocessors@ == cop) by {
                lemma_measurements_der_is_ber(v, tee, td, cop);
                let l1 = length_bytes(u8_integer_content(v).len());
                let l2 = length_bytes(tee.len());
                let l3 = length_bytes(td.len());
                let l0 = length_bytes(measurements_contents_ber(v, tee, td, cop, l1, l2, l3).len());
                assert(measurements_ber(v, tee, td, cop, l0, l1, l2, l3) == b@);
            }
        }
        r
    }

    fn decode_whole(b: &[u8]) -> (r: Result<Self, Asn1Error>)
        ensures
            r matches Ok(m) ==> measurements_valid(m.version, m.tee_tcb_info@, m.td_info@, m.coprocessors@)
                && is_measurements_encoding(m.version, m.tee_tcb_info@, m.td_info@, m.coprocessors@, b@),
            forall|v: u8, tee: Seq<u8>, td: Seq<u8>, cop: Seq<u8>, l0: Seq<u8>, l1: Seq<u8>, l2: Seq<u8>, l3: Seq<u8>|
                measurements_valid(v, tee, td, cop) && measurements_lengths(v, tee, td, cop, l0, l1, l2, l3)
                    && #[trigger] measurements_ber(v, tee, td, cop, l0, l1, l2, l3) == b@ ==> (r matches Ok(m)
                    && m.version == v && m.tee_tcb_info@ == tee && m.td_info@ == td && m.coprocessors@ == cop),
    {
        let ghost bs = b@;
        let blen = b.len();
        assert(bs.len() == blen);
        assert(bs.subrange(0, bs.len() as int) =~= bs);
        let (p0, e0) = match expect_ber_constructed_whole(b, 0x30) {
            Some(p) => p,
            None => {
                return Err(Asn1Error);
            },
        };
        proof {
            assert forall|v: u8, tee: Seq<u8>, td: Seq<u8>, cop: Seq<u8>, l0: Seq<u8>, l1: Seq<u8>, l2: Seq<u8>, l3: Seq<u8>|
                measurements_valid(v, tee, td, cop) && measurements_lengths(v, tee, td, cop, l0, l1, l2, l3)
                    && #[trigger] measurements_ber(v, tee, td, cop, l0, l1, l2, l3) == b@ implies contents_lengths(
                v,
                tee,
                td,
                l1,
                l2,
                l3,
            ) && measurements_contents_ber(v, tee, td, cop, l1, l2, l3) == bs.subrange(p0 as int, e0 as int) by {
                let c = measurements_contents_ber(v, tee, td, cop, l1, l2, l3);
                assert(ber_constructed(0x30, l0, c) == bs);
                assert(p0 == 1 + l0.len() && e0 == 1 + l0.len() + c.len());
                if l0 == seq![0x80u8] {
                    assert((seq![0x30u8] + l0 + c + seq![0u8, 0u8]).subrange(p0 as int, e0 as int) =~= c);
                } else {
                    assert(ber_tlv(0x30, l0, c).subrange(p0 as int, e0 as int) =~= c);
                }
            }
        }
        match Self::decode_contents(b, p0, e0) {
            Some(m) => {
                proof {
                    let cs = bs.subrange(p0 as int, e0 as int);
                    let l0 = bs.subrange(1, p0 as int);
                    let (l1, l2, l3) = choose|l1: Seq<u8>, l2: Seq<u8>, l3: Seq<u8>|
                        contents_lengths(m.version, m.tee_tcb_info@, m.td_info@, l1, l2, l3)
                            && #[trigger] measurements_contents_ber(
                            m.version,
                            m.tee_tcb_info@,
                            m.td_info@,
                            m.coprocessors@,
                            l1,
                            l2,
                            l3,
                        ) == cs;
                    assert(measurements_ber(m.version, m.tee_tcb_info@, m.td_info@, m.coprocessors@, l0, l1, l2, l3)
                        == bs);
                }
                Ok(m)
            },
            None => Err(Asn1Error),
        }
    }

    /// Reads the measurements from the whole of `b`, as [`Self::decode_ber`]
    /// does, and their coprocessor attestations as a set (see
    /// [`CoprocessorAttestationSetV1::from_der`]); fails when either fails.
    #[verifier::spinoff_prover]
    pub fn decode_with_coprocessor_set(b: &[u8]) -> (r: Result<(Self, CoprocessorAttestationSetV1), Asn1Error>)
        ensures
            r matches Ok((m, s)) ==> {
                &&& measurements_valid(m.version, m.tee_tcb_info@, m.td_info@, m.coprocessors@)
                &&& is_measurements_encoding(m.version, m.tee_tcb_info@, m.td_info@, m.coprocessors@, b@)
                &&& exists|ms: Seq<CoprocessorModel>|
                    oids_accepted(ms) && #[trigger] set_der(ms) == m.coprocessors@ && ms.to_multiset()
                        == s.elements().to_multiset()
            },
            forall|v: u8, tee: Seq<u8>, td: Seq<u8>, ms: Seq<CoprocessorModel>, l0: Seq<u8>, l1: Seq<u8>, l2: Seq<u8>, l3: Seq<u8>|
                is_accepted_version(v) && tee.len() == TEE_TCB_INFO_SIZE && td.len() == TD_INFO_SIZE
                    && oids_accepted(ms) && distinct_attestations(ms) && measurements_lengths(
                    v,
                    tee,
                    td,
                    set_der(ms),
                    l0,
                    l1,
                    l2,
                    l3,
                ) && #[trigger] measurements_ber(v, tee, td, set_der(ms), l0, l1, l2, l3) == b@ ==> (r matches Ok((m, s))
                    && m.version == v && m.tee_tcb_info@ == tee && m.td_info@ == td && m.coprocessors@ == set_der(ms)
                    && s.elements().to_multiset() == ms.to_multiset()),
            forall|v: u8, tee: Seq<u8>, td: Seq<u8>, ms: Seq<CoprocessorModel>|
                is_accepted_version(v) && tee.len() == TEE_TCB_INFO_SIZE && td.len() == TD_INFO_SIZE
                    && oids_accepted(ms) && distinct_attestations(ms) && #[trigger] measurements_der(
                    v,
                    tee,
                    td,
                    set_der(ms),
                ) == b@ ==> (r matches Ok((m, s)) && m.version == v && m.tee_tcb_info@ == tee
                    && m.td_info@ == td && m.coprocessors@ == set_der(ms) && s.elements().to_multiset()
                    == ms.to_multiset()),
    {
        proof {
            assert forall|ms: Seq<CoprocessorModel>| #[trigger] is_element(set_der(ms)) by {
                crate::der::lemma_tlv_is_element(0x31, crate::der::concat_all(encodings(ms)));
            }
        }
        let m = Self::decode_ber(b)?;
        let s = CoprocessorAttestationSetV1::from_der(m.coprocessors.as_slice())?;
        Ok((m, s))
    }

    /// Reads the measurements from the contents `b[p0..e0]` of their
    /// sequence.
    fn decode_contents(b: &[u8], p0: usize, e0: usize) -> (r: Option<Self>)
        requires
            0 < p0 <= e0 <= b@.len(),
        ensures
            r matches Some(m) ==> measurements_valid(m.version, m.tee_tcb_info@, m.td_info@, m.coprocessors@)
                && is_contents_encoding(
                m.version,
                m.tee_tcb_info@,
                m.td_info@,
                m.coprocessors@,
                b@.subrange(p0 as int, e0 as int),
            ),
            forall|v: u8, tee: Seq<u8>, td: Seq<u8>, cop: Seq<u8>, l1: Seq<u8>, l2: Seq<u8>, l3: Seq<u8>|
                measurements_valid(v, tee, td, cop) && contents_lengths(v, tee, td, l1, l2, l3)
                    && #[trigger] measurements_contents_ber(v, tee, td, cop, l1, l2, l3) == b@.subrange(
                    p0 as int,
                    e0 as int,
                ) ==> (r matches Some(m) && m.version == v && m.tee_tcb_info@ == tee && m.td_info@ == td
                    && m.coprocessors@ == cop),
    {
        let ghost bs = b@;
        proof {
            assert forall|v: u8, tee: Seq<u8>, td: Seq<u8>, cop: Seq<u8>, l1: Seq<u8>, l2: Seq<u8>, l3: Seq<u8>|
                measurements_valid(v, tee, td, cop) && contents_lengths(v, tee, td, l1, l2, l3)
                    && #[trigger] measurements_contents_ber(v, tee, td, cop, l1, l2, l3) == b@.subrange(
                    p0 as int,
                    e0 as int,
                ) implies b@.subrange((p0 + measurements_head_ber(v, tee, l1, l2).len()) as int, e0 as int)
                == ber_tlv(0x04, l3, td) + cop by {
                lemma_split(bs, p0 as int, e0 as int, measurements_head_ber(v, tee, l1, l2), ber_tlv(0x04, l3, td) + cop);
            }
        }
        let (version, tee_tcb_info, q) = match Self::decode_head(b, p0, e0) {
            Some(h) => h,
            None => {
                return None;
            },
        };
        let (td_info, coprocessors) = match Self::decode_tail(b, q, e0) {
            Some(t) => t,
            None => {
                return None;
            },
        };
        proof {
            let (l1, l2) = choose|l1: Seq<u8>, l2: Seq<u8>|
                ber_length_of(l1, u8_integer_content(version).len()) && ber_length_of(l2, tee_tcb_info@.len())
                    && #[trigger] measurements_head_ber(version, tee_tcb_info@, l1, l2) == bs.subrange(
                    p0 as int,
                    q as int,
                );
            let l3 = choose|l3: Seq<u8>|
                ber_length_of(l3, td_info@.len()) && #[trigger] (ber_tlv(0x04, l3, td_info@) + coprocessors@)
                    == bs.subrange(q as int, e0 as int);
            assert(bs.subrange(p0 as int, e0 as int) =~= bs.subrange(p0 as int, q as int) + bs.subrange(
                q as int,
                e0 as int,
            ));
            assert(measurements_contents_ber(version, tee_tcb_info@, td_info@, coprocessors@, l1, l2, l3)
                == bs.subrange(p0 as int, e0 as int));
        }
        Some(TdxReportMeasurements { version, tee_tcb_info, td_info, coprocessors })
    }

    /// Reads the report version and TEE_TCB_INFO that start `b[p0..e0]`:
    /// them, and the position after them.
    fn decode_head(b: &[u8], p0: usize, e0: usize) -> (r: Option<(u8, Vec<u8>, usize)>)
        requires
            p0 <= e0 <= b@.len(),
        ensures
            r matches Some((v, tee, q)) ==> {
                &&& p0 < q <= e0
                &&& is_accepted_version(v)
                &&& tee@.len() == TEE_TCB_INFO_SIZE
                &&& is_head_encoding(v, tee@, b@.subrange(p0 as int, q as int))
            },
            forall|v: u8, tee: Seq<u8>, l1: Seq<u8>, l2: Seq<u8>, rest: Seq<u8>|
                is_accepted_version(v) && tee.len() == TEE_TCB_INFO_SIZE && ber_length_of(
                    l1,
                    u8_integer_content(v).len(),
                ) && ber_length_of(l2, tee.len()) && #[trigger] (measurements_head_ber(v, tee, l1, l2) + rest)
                    == b@.subrange(p0 as int, e0 as int) ==> (r matches Some((v2, tee2, q)) && v2 == v && tee2@
                    == tee && q == p0 + measurements_head_ber(v, tee, l1, l2).len()),
    {
        let ghost bs = b@;
        proof {
            assert forall|v: u8, tee: Seq<u8>, l1: Seq<u8>, l2: Seq<u8>, rest: Seq<u8>|
                is_accepted_version(v) && tee.len() == TEE_TCB_INFO_SIZE && ber_length_of(
                    l1,
                    u8_integer_content(v).len(),
                ) && ber_length_of(l2, tee.len()) && #[trigger] (measurements_head_ber(v, tee, l1, l2) + rest)
                    == b@.subrange(p0 as int, e0 as int) implies {
                let t1 = ber_tlv(0x02, l1, u8_integer_content(v));
                let t2 = ber_tlv(0x04, l2, tee);
                &&& t1 + (t2 + rest) == bs.subrange(p0 as int, e0 as int)
                &&& t2 + rest == bs.subrange(p0 + t1.len(), e0 as int)
                &&& bs.subrange(p0 + 1 + l1.len(), p0 + t1.len()) == u8_integer_content(v)
                &&& bs.subrange(p0 + t1.len() + 1 + l2.len(), p0 + t1.len() + t2.len()) == tee
            } by {
                let t1 = ber_tlv(0x02, l1, u8_integer_content(v));
                let t2 = ber_tlv(0x04, l2, tee);
                assert(t1 + (t2 + rest) =~= measurements_head_ber(v, tee, l1, l2) + rest);
                lemma_split(bs, p0 as int, e0 as int, t1, t2 + rest);
                lemma_split(bs, p0 + t1.len(), e0 as int, t2, rest);
                lemma_ber_tlv_content(bs, p0 as int, 0x02, l1, u8_integer_content(v));
                lemma_ber_tlv_content(bs, p0 + t1.len(), 0x04, l2, tee);
            }
        }
        let (s1, e1) = match read_ber_prefixed(b, p0, e0, 0x02) {
            Some(p) => p,
            None => {
                proof {
                    assert forall|v: u8, tee: Seq<u8>, l1: Seq<u8>, l2: Seq<u8>, rest: Seq<u8>|
                        is_accepted_version(v) && tee.len() == TEE_TCB_INFO_SIZE && ber_length_of(
                            l1,
                            u8_integer_content(v).len(),
                        ) && ber_length_of(l2, tee.len()) && #[trigger] (measurements_head_ber(v, tee, l1, l2) + rest)
                            == b@.subrange(p0 as int, e0 as int) implies false by {
                        let t1 = ber_tlv(0x02, l1, u8_integer_content(v));
                        let t2 = ber_tlv(0x04, l2, tee);
                        assert(t1 + (t2 + rest) == bs.subrange(p0 as int, e0 as int));
                        assert(ber_length_of(l1, u8_integer_content(v).len()));
                    }
                }
                return None;
            },
        };
        let version = match read_u8_integer(b, s1, e1) {
            Some(v) => v,
            None => {
                proof {
                    assert forall|v: u8, tee: Seq<u8>, l1: Seq<u8>, l2: Seq<u8>, rest: Seq<u8>|
                        is_accepted_version(v) && tee.len() == TEE_TCB_INFO_SIZE && ber_length_of(
                            l1,
                            u8_integer_content(v).len(),
                        ) && ber_length_of(l2, tee.len()) && #[trigger] (measurements_head_ber(v, tee, l1, l2) + rest)
                            == b@.subrange(p0 as int, e0 as int) implies false by {
                        let t1 = ber_tlv(0x02, l1, u8_integer_content(v));
                        let t2 = ber_tlv(0x04, l2, tee);
                        assert(t1 + (t2 + rest) == bs.subrange(p0 as int, e0 as int));
                        assert(ber_length_of(l1, u8_integer_content(v).len()));
                        assert(bs.subrange(p0 + 1 + l1.len(), p0 + t1.len()) == u8_integer_content(v));
                    }
                }
                return None;
            },
        };
        if !TdxReportVersion1::accepted_version(version) {
            proof {
                    assert forall|v: u8, tee: Seq<u8>, l1: Seq<u8>, l2: Seq<u8>, rest: Seq<u8>|
                        is_accepted_version(v) && tee.len() == TEE_TCB_INFO_SIZE && ber_length_of(
                            l1,
                            u8_integer_content(v).len(),
                        ) && ber_length_of(l2, tee.len()) && #[trigger] (measurements_head_ber(v, tee, l1, l2) + rest)
                            == b@.subrange(p0 as int, e0 as int) implies false by {
                        let t1 = ber_tlv(0x02, l1, u8_integer_content(v));
                        let t2 = ber_tlv(0x04, l2, tee);
                        assert(t1 + (t2 + rest) == bs.subrange(p0 as int, e0 as int));
                        assert(ber_length_of(l1, u8_integer_content(v).len()));
                        assert(bs.subrange(p0 + 1 + l1.len(), p0 + t1.len()) == u8_integer_content(v));
                    }
                }
            return None;
        }
        let (s2, e2) = match read_ber_prefixed(b, e1, e0, 0x04) {
            Some(p) => p,
            None => {
                proof {
                    assert forall|v: u8, tee: Seq<u8>, l1: Seq<u8>, l2: Seq<u8>, rest: Seq<u8>|
                        is_accepted_version(v) && tee.len() == TEE_TCB_INFO_SIZE && ber_length_of(
                            l1,
                            u8_integer_content(v).len(),
                        ) && ber_length_of(l2, tee.len()) && #[trigger] (measurements_head_ber(v, tee, l1, l2) + rest)
                            == b@.subrange(p0 as int, e0 as int) implies false by {
                        let t1 = ber_tlv(0x02, l1, u8_integer_content(v));
                        let t2 = ber_tlv(0x04, l2, tee);
                        assert(t1 + (t2 + rest) == bs.subrange(p0 as int, e0 as int));
                        assert(ber_length_of(l1, u8_integer_content(v).len()));
                        assert(bs.subrange(p0 + 1 + l1.len(), p0 + t1.len()) == u8_integer_content(v));
                        assert(t2 + rest == bs.subrange(p0 + t1.len(), e0 as int));
                        assert(ber_length_of(l2, tee.len()));
                    }
                }
                return None;
            },
        };
        let tee_tcb_info = match TdxReportVersion1::tee_tcb_info_from_slice(vstd::slice::slice_subrange(b, s2, e2)) {
            Some(t) => t,
            None => {
                proof {
                    assert forall|v: u8, tee: Seq<u8>, l1: Seq<u8>, l2: Seq<u8>, rest: Seq<u8>|
                        is_accepted_version(v) && tee.len() == TEE_TCB_INFO_SIZE && ber_length_of(
                            l1,
                            u8_integer_content(v).len(),
                        ) && ber_length_of(l2, tee.len()) && #[trigger] (measurements_head_ber(v, tee, l1, l2) + rest)
                            == b@.subrange(p0 as int, e0 as int) implies false by {
                        let t1 = ber_tlv(0x02, l1, u8_integer_content(v));
                        let t2 = ber_tlv(0x04, l2, tee);
                        assert(t1 + (t2 + rest) == bs.subrange(p0 as int, e0 as int));
                        assert(ber_length_of(l1, u8_integer_content(v).len()));
                        assert(bs.subrange(p0 + 1 + l1.len(), p0 + t1.len()) == u8_integer_content(v));
                        assert(t2 + rest == bs.subrange(p0 + t1.len(), e0 as int));
                        assert(ber_length_of(l2, tee.len()));
                        assert(bs.subrange(p0 + t1.len() + 1 + l2.len(), p0 + t1.len() + t2.len()) == tee);
                    }
                }
                return None;
            },
        };
        proof {
            let l1 = bs.subrange(p0 + 1, s1 as int);
            let l2 = bs.subrange(e1 + 1, s2 as int);
            assert(bs.subrange(p0 as int, e2 as int) =~= bs.subrange(p0 as int, e1 as int) + bs.subrange(
                e1 as int,
                e2 as int,
            ));
            assert(measurements_head_ber(version, tee_tcb_info@, l1, l2) == bs.subrange(p0 as int, e2 as int));
        }
        Some((version, tee_tcb_info, e2))
    }

    /// Reads the TDINFO_STRUCT and the coprocessor attestations that make up
    /// `b[q..e0]`.
    fn decode_tail(b: &[u8], q: usize, e0: usize) -> (r: Option<(Vec<u8>, Vec<u8>)>)
        requires
            q <= e0 <= b@.len(),
        ensures
            r matches Some((td, cop)) ==> {
                &&& td@.len() == TD_INFO_SIZE
                &&& is_element(cop@)
                &&& is_tail_encoding(td@, cop@, b@.subrange(q as int, e0 as int))
            },
            forall|td: Seq<u8>, cop: Seq<u8>, l3: Seq<u8>|
                td.len() == TD_INFO_SIZE && is_element(cop) && ber_length_of(l3, td.len()) && #[trigger] (ber_tlv(
                    0x04,
                    l3,
                    td,
                ) + cop) == b@.subrange(q as int, e0 as int) ==> (r matches Some((td2, cop2)) && td2@ == td
                    && cop2@ == cop),
    {
        let ghost bs = b@;
        proof {
            assert forall|td: Seq<u8>, cop: Seq<u8>, l3: Seq<u8>|
                td.len() == TD_INFO_SIZE && is_element(cop) && ber_length_of(l3, td.len()) && #[trigger] (ber_tlv(
                    0x04,
                    l3,
                    td,
                ) + cop) == b@.subrange(q as int, e0 as int) implies {
                let t3 = ber_tlv(0x04, l3, td);
                &&& bs.subrange(q + t3.len(), e0 as int) == cop + Seq::<u8>::empty()
                &&& bs.subrange(q + 1 + l3.len(), q + t3.len()) == td
            } by {
                let t3 = ber_tlv(0x04, l3, td);
                lemma_split(bs, q as int, e0 as int, t3, cop);
                lemma_ber_tlv_content(bs, q as int, 0x04, l3, td);
                assert(cop + Seq::<u8>::empty() =~= cop);
            }
        }
        let (s3, e3) = match read_ber_prefixed(b, q, e0, 0x04) {
            Some(p) => p,
            None => {
                return None;
            },
        };
        let td_info = match TdxReportVersion1::td_info_from_slice(vstd::slice::slice_subrange(b, s3, e3)) {
            Some(t) => t,
            None => {
                proof {
                    assert forall|td: Seq<u8>, cop: Seq<u8>, l3: Seq<u8>|
                        td.len() == TD_INFO_SIZE && is_element(cop) && ber_length_of(l3, td.len()) && #[trigger] (ber_tlv(
                                            0x04,
                                            l3,
                                            td,
                                        ) + cop) == b@.subrange(q as int, e0 as int) implies false by {
                        let t3 = ber_tlv(0x04, l3, td);
                        assert(t3 + cop == bs.subrange(q as int, e0 as int));
                        lemma_split(bs, q as int, e0 as int, t3, cop);
                        lemma_ber_tlv_content(bs, q as int, 0x04, l3, td);
                        assert(ber_length_of(l3, td.len()));
                        assert(bs.subrange(q + 1 + l3.len(), q + t3.len()) == td);
                    }
                }
                return None;
            },
        };
        let cop_end = match read_prefixed_element(b, e3, e0) {
            Some(e) => e,
            None => {
                proof {
                    assert forall|td: Seq<u8>, cop: Seq<u8>, l3: Seq<u8>|
                        td.len() == TD_INFO_SIZE && is_element(cop) && ber_length_of(l3, td.len()) && #[trigger] (ber_tlv(
                                            0x04,
                                            l3,
                                            td,
                                        ) + cop) == b@.subrange(q as int, e0 as int) implies false by {
                        let t3 = ber_tlv(0x04, l3, td);
                        assert(t3 + cop == bs.subrange(q as int, e0 as int));
                        lemma_split(bs, q as int, e0 as int, t3, cop);
                        lemma_ber_tlv_content(bs, q as int, 0x04, l3, td);
                        assert(ber_length_of(l3, td.len()));
                        assert(bs.subrange(q + 1 + l3.len(), q + t3.len()) == td);
                        assert(bs.subrange(q + t3.len(), e0 as int) == cop + Seq::<u8>::empty());
                    }
                }
                return None;
            },
        };
        if cop_end != e0 {
            proof {
                assert forall|td: Seq<u8>, cop: Seq<u8>, l3: Seq<u8>|
                    td.len() == TD_INFO_SIZE && is_element(cop) && ber_length_of(l3, td.len()) && #[trigger] (ber_tlv(
                                        0x04,
                                        l3,
                                        td,
                                    ) + cop) == b@.subrange(q as int, e0 as int) implies false by {
                    let t3 = ber_tlv(0x04, l3, td);
                    assert(t3 + cop == bs.subrange(q as int, e0 as int));
                    lemma_split(bs, q as int, e0 as int, t3, cop);
                    lemma_ber_tlv_content(bs, q as int, 0x04, l3, td);
                    assert(ber_length_of(l3, td.len()));
                    assert(bs.subrange(q + 1 + l3.len(), q + t3.len()) == td);
                    assert(bs.subrange(q + t3.len(), e0 as int) == cop + Seq::<u8>::empty());
                }
            }
            return None;
        }
        let coprocessors = copy_range(b, e3, cop_end);
        proof {
            let l3 = bs.subrange(q + 1, s3 as int);
            assert(bs.subrange(q as int, e0 as int) =~= bs.subrange(q as int, e3 as int) + bs.subrange(
                e3 as int,
                e0 as int,
            ));
            assert(ber_tlv(0x04, l3, td_info@) + coprocessors@ == bs.subrange(q as int, e0 as int));
        }
        Some((td_info, coprocessors))
    }
}

/// An optional OCTET STRING: nothing when absent.
pub open spec fn opt_octet(v: Option<Seq<u8>>) -> Seq<u8> {
    match v {
        Some(a) => tlv(0x04, a),
        None => Seq::empty(),
    }
}

/// The data whose hash a TDREPORT carries: the hash of the CSR's public
/// key, the DER encoding of the coprocessor attestations and, with
/// workflows, the application configuration.
///
/// ```asn1
/// ReportDataV1 ::= SEQUENCE {
///     spki            OCTET STRING,
///     coprocessors    CoprocessorAttestationSetV1,
///     appconfig-id    OCTET STRING OPTIONAL
/// }
/// ```
#[derive(Debug, Clone)]
pub struct ReportDataV1 {
    pub spki: Vec<u8>,
    pub coprocessors: Vec<u8>,
    pub appconfig_id: Option<Vec<u8>>,
}

/// The contents of an optional byte string.
pub open spec fn opt_bytes(v: Option<Vec<u8>>) -> Option<Seq<u8>> {
    match v {
        Some(a) => Some(a@),
        None => None,
    }
}

/// The contents of an optional borrowed byte string.
pub open spec fn opt_slice(v: Option<&[u8]>) -> Option<Seq<u8>> {
    match v {
        Some(a) => Some(a@),
        None => None,
    }
}

impl ReportDataV1 {
    /// The DER encoding.
    pub open spec fn der(&self) -> Seq<u8> {
        tlv(0x30, tlv(0x04, self.spki@) + self.coprocessors@ + opt_octet(opt_bytes(self.appconfig_id)))
    }

    /// The report data for a key hash, the encoded attestations and a
    /// configuration; fails when the configuration is too long for an
    /// OCTET STRING.
    pub fn new(spki_hash: &[u8; 32], coprocessors: &Vec<u8>, appconfig_id: Option<&[u8]>) -> (r: Result<
        Self,
        AttestationErr,
    >)
        ensures
            r is Ok <==> (appconfig_id matches Some(a) ==> a@.len() <= DER_MAX_LEN),
            r matches Ok(d) ==> d.spki@ == spki_hash@ && d.coprocessors@ == coprocessors@ && opt_bytes(
                d.appconfig_id,
            ) == opt_slice(appconfig_id),
            r matches Err(e) ==> e matches AttestationErr::ReportDataGenerationError(m) && starts_with_context(
                m@,
                "unable to obtain appconfig id octet string"@,
            ),
    {
        let config_id = match appconfig_id {
            Some(a) => {
                if let Err(e) = crate::document::octet_string_check(a) {
                    proof {
                        reveal_strlit("unable to obtain appconfig id octet string");
                    }
                    return Err(
                        AttestationErr::ReportDataGenerationError(
                            crate::text::join_context("unable to obtain appconfig id octet string", e.as_str()),
                        ),
                    );
                }
                Some(copy_range(a, 0, a.len()))
            },
            None => None,
        };
        Ok(
            ReportDataV1 {
                spki: copy_range(spki_hash, 0, 32),
                coprocessors: copy_range(coprocessors.as_slice(), 0, coprocessors.len()),
                appconfig_id: config_id,
            },
        )
    }

    /// The DER encoding; fails when it would exceed [`DER_MAX_LEN`] bytes.
    pub fn to_der(&self) -> (r: Result<Vec<u8>, Asn1Error>)
        ensures
            r is Ok <==> self.der().len() <= DER_MAX_LEN,
            r matches Ok(v) ==> v@ == self.der(),
    {
        let mut inner: Vec<u8> = Vec::new();
        push_tlv(&mut inner, 0x04, self.spki.as_slice());
        crate::le::push_bytes(&mut inner, self.coprocessors.as_slice());
        match &self.appconfig_id {
            Some(a) => push_tlv(&mut inner, 0x04, a.as_slice()),
            None => {},
        }
        let mut out: Vec<u8> = Vec::new();
        push_tlv(&mut out, 0x30, inner.as_slice());
        assert(out@ =~= self.der());
        if out.len() <= DER_MAX_LEN {
            Ok(out)
        } else {
            Err(Asn1Error)
        }
    }

    /// The bytes whose hash goes into the report data: the DER encoding of
    /// the report data made of these parts.
    pub fn hash_input(spki_hash: &[u8; 32], coprocessors: &Vec<u8>, appconfig_id: Option<&[u8]>) -> (r: Result<
        Vec<u8>,
        AttestationErr,
    >)
        ensures
            r is Ok <==> (appconfig_id matches Some(a) ==> a@.len() <= DER_MAX_LEN) && tdx_report_data_der(
                spki_hash@,
                coprocessors@,
                opt_slice(appconfig_id),
            ).len() <= DER_MAX_LEN,
            r matches Ok(v) ==> v@ == tdx_report_data_der(spki_hash@, coprocessors@, opt_slice(appconfig_id)),
            r matches Err(e) ==> e is ReportDataGenerationError,
    {
        let data = Self::new(spki_hash, coprocessors, appconfig_id)?;
        match data.to_der() {
            Ok(v) => Ok(v),
            Err(_) => {
                proof {
                    reveal_strlit("unable to convert report data to der");
                }
                Err(
                    AttestationErr::ReportDataGenerationError(
                        crate::text::join_context("unable to convert report data to der", crate::document::length_overflow_text().as_str()),
                    ),
                )
            },
        }
    }
}

/// The DER encoding of the report data made of these parts.
pub open spec fn tdx_report_data_der(spki: Seq<u8>, coprocessors: Seq<u8>, appconfig_id: Option<Seq<u8>>) -> Seq<u8> {
    tlv(0x30, tlv(0x04, spki) + coprocessors + opt_octet(appconfig_id))
}

} // verus!
