//! Decisions around the SEV-SNP guest device (`/dev/sev-guest`, or the older
//! `/dev/sev`) exchange: how the firmware and VMM error codes are judged, and
//! how a report response is accepted.

use vstd::prelude::*;

use super::report::{Report, REPORT_SIZE, is_vmpl_code, unknown_vmpl_text};
use super::AttestationCoreErr;
use crate::le::u32_at;

verus! {

#[verifier::external_type_specification]
#[verifier::external_body]
pub struct ExIoError(std::io::Error);

/// Everything that can go wrong with requesting an attestation report.
#[derive(Debug)]
pub enum SevGuestErr {
    /// No candidate guest device exists.
    MissingGuestDevice,
    /// The device at the path could not be opened.
    CannotOpenDevice(&'static str, std::io::Error),
    /// The ioctl itself failed.
    IoctlErr(std::io::Error),
    /// The ioctl succeeded but the response carries a firmware status code.
    FirmwareError(u32),
    /// The ioctl exit information carries error codes: (combined, fw_err, vmm_err).
    SevGuestRequestError(u64, u32, u32),
}

/// The combined error code: `vmm_err` in the upper 32 bits, `fw_err` in the
/// lower 32 bits, as the kernel lays out the exit information.
pub open spec fn combined_error_code(fw_err: u32, vmm_err: u32) -> int {
    vmm_err * 0x1_0000_0000 + fw_err
}

impl SevGuestErr {
    /// The error that reports the exit codes `fw_err` and `vmm_err`.
    pub fn create_err(fw_err: u32, vmm_err: u32) -> (e: SevGuestErr)
        ensures
            e == SevGuestErr::SevGuestRequestError(
                combined_error_code(fw_err, vmm_err) as u64,
                fw_err,
                vmm_err,
            ),
    {
        let err: u64 = ((vmm_err as u64) << 32u64) | (fw_err as u64);
        assert(((vmm_err as u64) << 32u64) | (fw_err as u64) == (vmm_err as u64) * 0x1_0000_0000
            + (fw_err as u64)) by (bit_vector);
        SevGuestErr::SevGuestRequestError(err, fw_err, vmm_err)
    }

    /// Succeeds exactly when both exit codes are zero; otherwise the error
    /// carries both codes.
    pub fn check_err(fw_err: u32, vmm_err: u32) -> (r: Result<(), SevGuestErr>)
        ensures
            r is Ok <==> (fw_err == 0 && vmm_err == 0),
            r is Err ==> r == Err::<(), SevGuestErr>(
                SevGuestErr::SevGuestRequestError(
                    combined_error_code(fw_err, vmm_err) as u64,
                    fw_err,
                    vmm_err,
                ),
            ),
    {
        if fw_err != 0 || vmm_err != 0 {
            let err_instance = Self::create_err(fw_err, vmm_err);
            return Err(err_instance);
        }
        Ok(())
    }
}

/// The response buffer of the report request (Linux `snp_report_resp`):
/// firmware status, the size of the report the firmware wrote, and the
/// report bytes.
#[derive(Debug, Clone)]
pub struct ReportResponse {
    pub status: u32,
    pub report_size: u32,
    pub attestation_report: Vec<u8>,
}

/// Judges a finished report ioctl: the exit codes `fw_err` and `vmm_err` are
/// checked first, then the ioctl's own result; only when both are clean is
/// the response handed on.
pub fn complete_report_request(
    fw_err: u32,
    vmm_err: u32,
    ioctl: Result<(), std::io::Error>,
    response: ReportResponse,
) -> (r: Result<ReportResponse, SevGuestErr>)
    ensures
        (fw_err != 0 || vmm_err != 0) ==> r == Err::<ReportResponse, SevGuestErr>(
            SevGuestErr::SevGuestRequestError(
                combined_error_code(fw_err, vmm_err) as u64,
                fw_err,
                vmm_err,
            ),
        ),
        (fw_err == 0 && vmm_err == 0) ==> match ioctl {
            Err(e) => r == Err::<ReportResponse, SevGuestErr>(SevGuestErr::IoctlErr(e)),
            Ok(()) => r == Ok::<ReportResponse, SevGuestErr>(response),
        },
{
    SevGuestErr::check_err(fw_err, vmm_err)?;
    match ioctl {
        Err(e) => Err(SevGuestErr::IoctlErr(e)),
        Ok(()) => Ok(response),
    }
}

/// What a request to the guest device yields for `exchange`: `None` when
/// no guest device exists, else the outcome of the exchange with it. A
/// response is accepted when its firmware status is zero, its report size
/// is [`REPORT_SIZE`], and its report bytes decode.
pub open spec fn guest_report_outcome(
    exchange: Option<Result<ReportResponse, SevGuestErr>>,
    r: Result<Report, AttestationCoreErr>,
) -> bool {
    match exchange {
        None => r == Err::<Report, AttestationCoreErr>(
            AttestationCoreErr::GuestErr(SevGuestErr::MissingGuestDevice),
        ),
        Some(Err(e)) => r == Err::<Report, AttestationCoreErr>(AttestationCoreErr::GuestErr(e)),
        Some(Ok(resp)) => {
            let bytes = resp.attestation_report@;
            if resp.status != 0 {
                r == Err::<Report, AttestationCoreErr>(
                    AttestationCoreErr::GuestErr(SevGuestErr::FirmwareError(resp.status)),
                )
            } else if resp.report_size != REPORT_SIZE {
                r == Err::<Report, AttestationCoreErr>(
                    AttestationCoreErr::InvalidBufferSize(REPORT_SIZE, resp.report_size as usize),
                )
            } else if bytes.len() != REPORT_SIZE {
                r == Err::<Report, AttestationCoreErr>(
                    AttestationCoreErr::InvalidBufferSize(REPORT_SIZE, bytes.len() as usize),
                )
            } else {
                &&& (r is Ok <==> is_vmpl_code(u32_at(bytes, 48)))
                &&& (r matches Ok(rep) ==> rep.wire() == bytes)
                &&& (r is Err ==> (r matches Err(AttestationCoreErr::ReportVerificationError(m))
                    && m@ == unknown_vmpl_text()))
            }
        },
    }
}

/// Two results are the same outcome: equal reports, or equal errors, the
/// messages of report verification errors taken by their text.
pub open spec fn same_outcome(r1: Result<Report, AttestationCoreErr>, r2: Result<Report, AttestationCoreErr>) -> bool {
    match (r1, r2) {
        (Ok(a), Ok(b)) => a == b,
        (
            Err(AttestationCoreErr::ReportVerificationError(m1)),
            Err(AttestationCoreErr::ReportVerificationError(m2)),
        ) => m1@ == m2@,
        (Err(e1), Err(e2)) => e1 == e2,
        _ => false,
    }
}

/// The outcome of a guest device exchange is determined by the exchange:
/// any two results that both judge it (such as those of
/// [`Report::request`] and [`request_guest_report`]) are the same outcome.
pub proof fn lemma_guest_report_outcome_unique(
    exchange: Option<Result<ReportResponse, SevGuestErr>>,
    r1: Result<Report, AttestationCoreErr>,
    r2: Result<Report, AttestationCoreErr>,
)
    requires
        guest_report_outcome(exchange, r1),
        guest_report_outcome(exchange, r2),
    ensures
        same_outcome(r1, r2),
{
    if let (Ok(a), Ok(b)) = (r1, r2) {
        crate::sev::report::lemma_wire_injective(a, b);
    }
}

/// Decides the report that a request to the guest device produced.
pub fn request_guest_report(exchange: Option<Result<ReportResponse, SevGuestErr>>) -> (r: Result<
    Report,
    AttestationCoreErr,
>)
    ensures
        guest_report_outcome(exchange, r),
{
    let report = match exchange {
        None => {
            return Err(AttestationCoreErr::GuestErr(SevGuestErr::MissingGuestDevice));
        },
        Some(Err(e)) => {
            return Err(AttestationCoreErr::GuestErr(e));
        },
        Some(Ok(resp)) => resp,
    };
    if report.status != 0 {
        return Err(AttestationCoreErr::GuestErr(SevGuestErr::FirmwareError(report.status)));
    }
    let actual_size = report.report_size as usize;
    if actual_size != REPORT_SIZE {
        return Err(AttestationCoreErr::InvalidBufferSize(REPORT_SIZE, actual_size));
    }
    Report::try_from_slice(report.attestation_report.as_slice())
}

} // verus!
