use attestation::sev::guest::{
    complete_report_request, request_guest_report, ReportResponse, SevGuestErr,
};
use attestation::sev::report::{
    AbiVersion, CpuId, Report, SignatureAlgorithm, SigningKey, REPORT_SIZE, VMPL,
};
use attestation::sev::tcb_version::TCBVersion;
use attestation::sev::AttestationCoreErr;
use std::cmp::Ordering;

fn put_u32(b: &mut [u8], off: usize, v: u32) {
    b[off..off + 4].copy_from_slice(&v.to_le_bytes());
}

fn put_u64(b: &mut [u8], off: usize, v: u64) {
    b[off..off + 8].copy_from_slice(&v.to_le_bytes());
}

/// A report of version 3 with recognisable values in its fields.
fn sample_bytes() -> Vec<u8> {
    let mut b = vec![0u8; REPORT_SIZE];
    put_u32(&mut b, 0, 3); // version
    put_u32(&mut b, 4, 7); // guest_svn
    put_u64(&mut b, 8, (1 << 19) | (1 << 16) | 0x0105); // policy: debug, smt, abi 1.5
    b[16..32].copy_from_slice(&[0x11; 16]); // family_id
    b[32..48].copy_from_slice(&[0x22; 16]); // image_id
    put_u32(&mut b, 48, 1); // vmpl
    put_u32(&mut b, 52, 1); // signature algorithm
    b[56..64].copy_from_slice(&[1, 2, 3, 4, 5, 6, 7, 8]); // current_tcb
    put_u64(&mut b, 64, 0b1010_0011); // platform info
    put_u32(&mut b, 72, (1 << 2) | 1); // key usage: VLEK, author key
    for (i, x) in b[80..144].iter_mut().enumerate() {
        *x = i as u8; // report_data
    }
    b[144..192].copy_from_slice(&[0x33; 48]); // measurement
    b[192..224].copy_from_slice(&[0x44; 32]); // host_data
    b[384..392].copy_from_slice(&[9, 9, 9, 9, 9, 9, 9, 9]); // reported_tcb
    b[392] = 0x19; // family
    b[393] = 0x11; // model
    b[394] = 0x01; // stepping
    b[416..480].copy_from_slice(&[0x55; 64]); // chip_id
    b[480..488].copy_from_slice(&[3; 8]); // committed_tcb
    b[488..492].copy_from_slice(&[0x10, 0x37, 0x01, 0x00]); // current firmware
    b[496..504].copy_from_slice(&[4; 8]); // launch_tcb
    put_u64(&mut b, 504, 0xaaaa); // launch mitigation vector
    put_u64(&mut b, 512, 0xbbbb); // current mitigation vector
    b[672..1184].copy_from_slice(&[0x66; 512]); // signature
    b
}

#[test]
fn report_parse_then_serialize_gives_the_bytes_back() {
    let bytes = sample_bytes();
    let report = Report::try_from_slice(&bytes).unwrap();
    assert_eq!(report.as_slice(), bytes);
    let mut out = vec![0xffu8];
    report.write(&mut out);
    assert_eq!(out.len(), 1 + REPORT_SIZE);
    assert_eq!(&out[1..], &bytes[..]);
}

#[test]
fn report_fields_sit_at_their_offsets() {
    let report = Report::try_from_slice(&sample_bytes()).unwrap();
    assert_eq!(report.version(), 3);
    assert_eq!(report.guest_svn(), 7);
    assert_eq!(*report.vmpl(), VMPL::ONE);
    assert_eq!(report.current_raw_tcb(), [1, 2, 3, 4, 5, 6, 7, 8]);
    assert_eq!(report.reported_raw_tcb(), [9; 8]);
    assert_eq!(report.committed_raw_tcb(), [3; 8]);
    assert_eq!(report.launch_raw_tcb(), [4; 8]);
    assert_eq!(report.launch_mitigation_vector(), 0xaaaa);
    assert_eq!(report.current_mitigation_vector(), 0xbbbb);
    assert_eq!(report.report_data()[5], 5);
    assert_eq!(report.host_data(), &[0x44; 32]);
    assert_eq!(report.claimed_measurement(), &[0x33; 48]);
    assert_eq!(report.chip_id(), Some(&[0x55; 64]));
    assert_eq!(report.current.build(), 0x10);
    assert_eq!(report.current.minor(), 0x37);
    assert_eq!(report.current.major(), 0x01);
    assert_eq!(report.signature_algorithm().unwrap(), SignatureAlgorithm::EcdsaP384WithSha384);
}

#[test]
fn policy_bits_and_minimum_abi() {
    let report = Report::try_from_slice(&sample_bytes()).unwrap();
    let policy = report.policy();
    assert!(policy.debugging_allowed());
    assert!(policy.smt_allowed());
    assert!(!policy.migration_allowed());
    assert!(!policy.single_socket());
    assert!(!policy.page_swap_disabled());
    assert!(!policy.ciphertext_hiding_dram());
    assert!(!policy.rapl_disabled());
    assert!(!policy.mem_aes_256_xts());
    assert!(!policy.cxl_allow());
    let abi = policy.minimum_abi();
    assert_eq!(abi, AbiVersion::new(1, 5));
    assert_eq!((abi.major(), abi.minor()), (1, 5));
}

#[test]
fn platform_and_key_usage_bits() {
    let report = Report::try_from_slice(&sample_bytes()).unwrap();
    let p = &report.platform_info;
    assert!(p.smt_enabled());
    assert!(p.tsme_enabled());
    assert!(!p.ecc_enabled());
    assert!(!p.rapl_disabled());
    assert!(!p.ciphertext_hiding_dram_enabled());
    assert!(p.alias_check_complete());
    assert!(p.sev_tio_enabled());
    let k = &report.key_usage_info;
    assert!(k.author_key_enabled());
    assert!(!k.mask_chip_key());
    assert_eq!(k.signing_key(), SigningKey::Vlek);
}

#[test]
fn masked_chip_key_hides_the_chip_id() {
    let mut bytes = sample_bytes();
    put_u32(&mut bytes, 72, (7 << 2) | 2);
    let report = Report::try_from_slice(&bytes).unwrap();
    assert_eq!(report.chip_id(), None);
    assert_eq!(report.key_usage_info.signing_key(), SigningKey::NotSigned);
    put_u32(&mut bytes, 72, 3 << 2);
    let report = Report::try_from_slice(&bytes).unwrap();
    assert_eq!(report.key_usage_info.signing_key(), SigningKey::Reserved);
}

#[test]
fn wrong_size_is_an_invalid_buffer_size() {
    let bytes = vec![0u8; 100];
    match Report::try_from_slice(&bytes) {
        Err(AttestationCoreErr::InvalidBufferSize(expected, actual)) => {
            assert_eq!(expected, 1184);
            assert_eq!(actual, 100);
        }
        other => panic!("unexpected {:?}", other.map(|_| ())),
    }
}

#[test]
fn unknown_vmpl_code_is_refused() {
    let mut bytes = sample_bytes();
    put_u32(&mut bytes, 48, 4);
    assert!(matches!(
        Report::try_from_slice(&bytes),
        Err(AttestationCoreErr::ReportVerificationError(_))
    ));
    put_u32(&mut bytes, 48, 0xffff_ffff);
    let report = Report::try_from_slice(&bytes).unwrap();
    assert_eq!(*report.vmpl(), VMPL::HOST);
    assert_eq!(VMPL::HOST.code(), 0xffff_ffff);
    assert_eq!(VMPL::from_code(2), Some(VMPL::TWO));
    assert_eq!(VMPL::from_code(5), None);
}

#[test]
fn unsupported_signature_algorithm() {
    let mut bytes = sample_bytes();
    put_u32(&mut bytes, 52, 2);
    let report = Report::try_from_slice(&bytes).unwrap();
    assert!(matches!(
        report.signature_algorithm(),
        Err(AttestationCoreErr::UnsupportedSignatureAlgo(2))
    ));
    assert!(matches!(
        SignatureAlgorithm::try_from(1u32),
        Ok(SignatureAlgorithm::EcdsaP384WithSha384)
    ));
}

#[test]
fn cpuid_of_a_version_three_report() {
    let report = Report::try_from_slice(&sample_bytes()).unwrap();
    assert_eq!(report.cpuid_fam_id().unwrap(), 0x19);
    assert_eq!(report.cpuid_mod_id().unwrap(), 0x11);
    assert_eq!(report.cpuid_step().unwrap(), 0x01);
    // Family 0x19 = 0x0f + 0x0a: extended family 0xa, base family 0xf.
    assert_eq!(report.cpuid().unwrap(), CpuId(0x00a1_0f11));
    assert_eq!(report.cpuid().unwrap().debug_text(), "CpuId(0x00a10f11)");
}

#[test]
fn cpuid_is_not_in_version_two_reports() {
    let mut bytes = sample_bytes();
    put_u32(&mut bytes, 0, 2);
    let report = Report::try_from_slice(&bytes).unwrap();
    match report.cpuid_fam_id() {
        Err(AttestationCoreErr::ReportVerificationError(m)) => {
            assert_eq!(m, "CPUID Family ID is not supported for this report version")
        }
        _ => panic!("expected an error"),
    }
    assert!(report.cpuid_mod_id().is_err());
    assert!(report.cpuid_step().is_err());
    assert!(report.cpuid().is_err());
}

#[test]
fn cpuid_with_a_large_stepping_fails() {
    let mut bytes = sample_bytes();
    bytes[394] = 0x10;
    let report = Report::try_from_slice(&bytes).unwrap();
    match report.cpuid() {
        Err(AttestationCoreErr::ReportVerificationError(m)) => assert_eq!(
            m,
            "Unable to get cpuid from family: 0x19, model: 0x11, step: 0x10"
        ),
        _ => panic!("expected an error"),
    }
}

#[test]
fn from_fms_examples() {
    assert_eq!(CpuId::from_fms(0x0f, 0x00, 0x00), Some(CpuId(0x0000_0f00)));
    assert_eq!(CpuId::from_fms(0x06, 0xab, 0x0c), Some(CpuId(0x000a_06bc)));
    assert_eq!(CpuId::from_fms(0x1a, 0x02, 0x00), Some(CpuId(0x00b0_0f20)));
    assert_eq!(CpuId::from_fms(0x19, 0x01, 0x10), None);
}

#[test]
fn abi_compatibility() {
    let needed = AbiVersion::new(1, 5);
    assert!(needed.is_compatible_with(AbiVersion::new(1, 5)));
    assert!(needed.is_compatible_with(AbiVersion::new(1, 55)));
    assert!(!needed.is_compatible_with(AbiVersion::new(1, 4)));
    assert!(!needed.is_compatible_with(AbiVersion::new(2, 5)));
    assert_eq!(AbiVersion::new(1, 55).to_string(), "1.55");
    assert_eq!(AbiVersion::new(0, 0).to_string(), "0.0");
}

#[test]
fn tcb_order_examples() {
    let a = TCBVersion::new(1, 2, 3, 4, None);
    let b = TCBVersion::new(1, 2, 4, 4, None);
    let c = TCBVersion::new(2, 1, 3, 4, None);
    let turin = TCBVersion::new(1, 2, 3, 4, Some(1));
    assert_eq!(a.partial_cmp(&a), Some(Ordering::Equal));
    assert_eq!(a.partial_cmp(&b), Some(Ordering::Less));
    assert_eq!(b.partial_cmp(&a), Some(Ordering::Greater));
    assert_eq!(b.partial_cmp(&c), None);
    assert_eq!(a.partial_cmp(&turin), None);
    assert!(a < b);
    assert_eq!(turin.fmc(), Some(1));
    assert_eq!(
        (a.boot_loader(), a.tee(), a.snp(), a.microcode()),
        (1, 2, 3, 4)
    );
}

#[test]
fn guest_report_decisions() {
    let bytes = sample_bytes();
    let ok = ReportResponse {
        status: 0,
        report_size: REPORT_SIZE as u32,
        attestation_report: bytes.clone(),
    };
    let report = Report::request(Some(Ok(ok.clone()))).unwrap();
    assert_eq!(report.as_slice(), bytes);
    assert!(matches!(
        Report::request(None),
        Err(AttestationCoreErr::GuestErr(SevGuestErr::MissingGuestDevice))
    ));
    let mut failed = ok.clone();
    failed.status = 0x16;
    assert!(matches!(
        Report::request(Some(Ok(failed))),
        Err(AttestationCoreErr::GuestErr(SevGuestErr::FirmwareError(0x16)))
    ));
    let mut short = ok.clone();
    short.report_size = 1000;
    assert!(matches!(
        Report::request(Some(Ok(short))),
        Err(AttestationCoreErr::InvalidBufferSize(1184, 1000))
    ));
    let err = SevGuestErr::create_err(0, 2);
    assert!(matches!(
        Report::request(Some(Err(err))),
        Err(AttestationCoreErr::GuestErr(SevGuestErr::SevGuestRequestError(0x2_0000_0000, 0, 2)))
    ));
}

#[test]
fn exit_codes_are_checked_before_the_ioctl_result() {
    let resp = ReportResponse {
        status: 0,
        report_size: 0,
        attestation_report: vec![],
    };
    let io = std::io::Error::new(std::io::ErrorKind::Other, "ioctl");
    match complete_report_request(0x0b, 0, Err(io), resp.clone()) {
        Err(SevGuestErr::SevGuestRequestError(code, 0x0b, 0)) => assert_eq!(code, 0x0b),
        _ => panic!("expected the exit codes to decide"),
    }
    let io = std::io::Error::new(std::io::ErrorKind::Other, "ioctl");
    assert!(matches!(
        complete_report_request(0, 0, Err(io), resp.clone()),
        Err(SevGuestErr::IoctlErr(_))
    ));
    assert!(complete_report_request(0, 0, Ok(()), resp).is_ok());
}

#[test]
fn cpuid_debug_text_is_zero_padded() {
    assert_eq!(CpuId::from_fms(0x6, 0x3a, 0x9).unwrap().debug_text(), "CpuId(0x000306a9)");
    assert_eq!(CpuId(0).debug_text(), "CpuId(0x00000000)");
    assert!(CpuId::from_fms(0x6, 0x3a, 0x10).is_none());
}

#[test]
fn unknown_vmpl_is_refused_alike_by_both_requests() {
    let mut bytes = sample_bytes();
    put_u32(&mut bytes, 48, 7);
    match Report::try_from_slice(&bytes) {
        Err(AttestationCoreErr::ReportVerificationError(m)) => {
            assert_eq!(m, "VMPL code in the report names no VMPL level")
        }
        _ => panic!("expected a report verification error"),
    }
    let resp = ReportResponse {
        status: 0,
        report_size: REPORT_SIZE as u32,
        attestation_report: bytes,
    };
    for r in [Report::request(Some(Ok(resp.clone()))), request_guest_report(Some(Ok(resp)))] {
        match r {
            Err(AttestationCoreErr::ReportVerificationError(m)) => {
                assert_eq!(m, "VMPL code in the report names no VMPL level")
            }
            _ => panic!("expected a report verification error"),
        }
    }
    let good = ReportResponse {
        status: 0,
        report_size: REPORT_SIZE as u32,
        attestation_report: sample_bytes(),
    };
    assert_eq!(
        Report::request(Some(Ok(good.clone()))).unwrap().as_slice(),
        request_guest_report(Some(Ok(good))).unwrap().as_slice()
    );
}
