use attestation::sev::guest::SevGuestErr;

// check_err must return Ok(()) when both codes are zero, so a clean
// report isn't mistaken for a firmware/VMM failure.
#[test]
fn test_no_errors() {
    assert!(SevGuestErr::check_err(0, 0).is_ok());
}

// fw_err non-zero, vmm_err zero.
#[test]
fn test_fw_error_only() {
    let fw_error_code: u32 = 0x000B; // SEV_RET_BAD_MEASUREMENT
    let parsed_error = SevGuestErr::create_err(fw_error_code, 0);
    assert!(
        matches!(parsed_error, SevGuestErr::SevGuestRequestError(_, fw_code, vmm_code) if fw_code == fw_error_code && vmm_code == 0)
    )
}

// fw_err zero, vmm_err non-zero.
#[test]
fn test_vmm_error_only() {
    let vmm_error_code: u32 = 2; // SNP_GUEST_VMM_ERR_BUSY
    let parsed_error = SevGuestErr::create_err(0, vmm_error_code);
    assert!(
        matches!(parsed_error, SevGuestErr::SevGuestRequestError(_, fw_code, vmm_code) if fw_code == 0 && vmm_code == vmm_error_code)
    )
}

// Both codes non-zero.
#[test]
fn test_fw_and_vmm_error() {
    let fw_error_code: u32 = 0x000B;
    let vmm_error_code: u32 = 2;
    let parsed_error = SevGuestErr::create_err(fw_error_code, vmm_error_code);
    assert!(
        matches!(parsed_error, SevGuestErr::SevGuestRequestError(_, fw_code, vmm_code) if fw_code == fw_error_code && vmm_code == vmm_error_code)
    )
}
