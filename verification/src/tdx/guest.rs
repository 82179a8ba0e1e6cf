//! A TDREPORT as obtained in the TDX guest, packed with the coprocessor
//! attestations that go with it, and its split into the report MAC and the
//! measurements.

use vstd::prelude::*;

use super::{report_version, AttestationErr, TdxReportMeasurements, TdxReportV1, TdxReportVersion1, TeeReportMac};
use crate::der::copy_range;
use crate::le::hash_report_data_of;

verus! {

/// A TDREPORT as the TDX module wrote it, with the DER encoding of the coprocessor
/// attestations bound into its report data.
#[derive(Debug, Clone)]
pub struct PackedTdxReportGuest {
    pub td_report: TdxReportV1,
    pub coprocessors: Vec<u8>,
}

impl PackedTdxReportGuest {
    /// The report data to request a TDREPORT with: the hash of the report
    /// data structure in the first 32 bytes, zeros after.
    pub fn report_data(hash: &[u8; 32]) -> (r: [u8; 64])
        ensures
            r@ == hash_report_data_of(hash@),
    {
        crate::le::hash_report_data(hash)
    }

    /// Packs a TDREPORT obtained from the guest with its coprocessor
    /// attestations.
    pub fn new(td_report: TdxReportV1, coprocessors: Vec<u8>) -> (p: Self)
        ensures
            p.td_report.bytes() == td_report.bytes(),
            p.coprocessors@ == coprocessors@,
    {
        PackedTdxReportGuest { td_report, coprocessors }
    }

    /// Packs a TDREPORT captured earlier as bytes.
    pub fn from_mock_report(report_bin: &[u8], coprocessors: Vec<u8>) -> (r: Result<Self, AttestationErr>)
        ensures
            r is Ok <==> report_bin@.len() == super::TDX_REPORT_SIZE,
            r matches Ok(p) ==> p.td_report.bytes() == report_bin@ && p.coprocessors@ == coprocessors@,
            r matches Err(e) ==> e matches AttestationErr::ReportDataGenerationError(m) && m@
                == "cannot copy from bytes"@,
    {
        let td_report = TdxReportVersion1::generate_mock_report(report_bin)?;
        Ok(PackedTdxReportGuest { td_report, coprocessors })
    }

    /// Splits the report into its MAC structure and its measurements.
    pub fn build_decoupled_report(&self) -> (r: Result<(TeeReportMac, TdxReportMeasurements), AttestationErr>)
        ensures
            r matches Ok((mac, m)) && mac.mac@ == self.td_report.bytes().subrange(0, 256) && m.version
                == report_version(self.td_report.bytes()) && m.tee_tcb_info@
                == self.td_report.bytes().subrange(256, 495) && m.td_info@
                == self.td_report.bytes().subrange(512, 1024) && m.coprocessors@ == self.coprocessors@,
    {
        let mac = TdxReportVersion1::report_mac_from_report(&self.td_report);
        let report_mac = TeeReportMac { mac: copy_range(mac, 0, mac.len()) };
        let cop = copy_range(self.coprocessors.as_slice(), 0, self.coprocessors.len());
        assert(cop@ =~= self.coprocessors@);
        let measurements = TdxReportMeasurements::new_from_report(&self.td_report, cop);
        Ok((report_mac, measurements))
    }
}

} // verus!
