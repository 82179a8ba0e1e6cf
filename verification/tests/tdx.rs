use attestation::tpm_snp::csr_format::CoprocessorAttestationSetV1;
use attestation::tdx::guest::PackedTdxReportGuest;
use attestation::tdx::{
    AttestationErr, ReportDataV1, TdxReportMeasurements, TdxReportVersion1, TeeReportMac,
};

/// A TDREPORT with report type version `version` and distinct bytes in each
/// of its parts.
fn sample_report(version: u8) -> Vec<u8> {
    let mut b = vec![0u8; 1024];
    for (i, x) in b.iter_mut().enumerate() {
        *x = (i % 251) as u8;
    }
    b[2] = version;
    b
}

/// The DER encoding of `SEQUENCE { mock INTEGER }` with the value 10.
const MOCK_COPROCESSORS: [u8; 5] = [0x30, 0x03, 0x02, 0x01, 0x0a];

#[test]
fn mock_generate_decouple_report() {
    let td_report = sample_report(0);
    let packed_report =
        PackedTdxReportGuest::from_mock_report(&td_report, MOCK_COPROCESSORS.to_vec()).unwrap();
    let (report_mac, report_measurements) = packed_report.build_decoupled_report().unwrap();
    let report_mac_der = report_mac.to_der();
    let report_measurements_der = report_measurements.to_der();
    TdxReportMeasurements::decode_ber(&report_measurements_der).unwrap();
    TeeReportMac::decode_ber(&report_mac_der).unwrap();
}

#[test]
fn decoupled_report_parts_decode_to_the_report_parts() {
    let td_report = sample_report(1);
    let packed =
        PackedTdxReportGuest::from_mock_report(&td_report, MOCK_COPROCESSORS.to_vec()).unwrap();
    let (mac, m) = packed.build_decoupled_report().unwrap();
    assert_eq!(mac.as_ref(), &td_report[..256]);
    assert_eq!(m.version, 1);
    assert_eq!(m.tee_tcb_info(), &td_report[256..495].to_vec());
    assert_eq!(m.td_info(), &td_report[512..1024].to_vec());
    assert_eq!(m.coprocessors(), &MOCK_COPROCESSORS.to_vec());
    let back = TdxReportMeasurements::decode_ber(&m.to_der()).unwrap();
    assert_eq!(back.version, 1);
    assert_eq!(back.tee_tcb_info, m.tee_tcb_info);
    assert_eq!(back.td_info, m.td_info);
    assert_eq!(back.coprocessors, m.coprocessors);
    let mac_der = mac.to_der();
    assert_eq!(&mac_der[..4], &[0x04, 0x82, 0x01, 0x00]);
    assert_eq!(TeeReportMac::decode_ber(&mac_der).unwrap().mac, mac.mac);
    let attr = mac.to_attribute();
    assert_eq!(attr.oid, vec![1, 3, 6, 1, 4, 1, 49690, 2, 2, 17]);
    assert_eq!(attr.value, vec![mac_der]);
    assert_eq!(TeeReportMac::oid(), attr.oid);
    assert_eq!(
        TdxReportMeasurements::oid(),
        vec![1, 3, 6, 1, 4, 1, 49690, 2, 2, 18]
    );
}

#[test]
fn measurements_with_an_unaccepted_version_do_not_decode() {
    let td_report = sample_report(2);
    let packed =
        PackedTdxReportGuest::from_mock_report(&td_report, MOCK_COPROCESSORS.to_vec()).unwrap();
    let (_, m) = packed.build_decoupled_report().unwrap();
    assert!(TdxReportMeasurements::decode_ber(&m.to_der()).is_err());
    let rep = TdxReportVersion1::generate_mock_report(&td_report).unwrap();
    assert!(!TdxReportVersion1::accepted_report(&rep));
}

#[test]
fn mac_of_the_wrong_size_does_not_decode() {
    let der = vec![0x04, 0x02, 1, 2];
    assert!(TeeReportMac::decode_ber(&der).is_err());
}

#[test]
fn mock_report_of_the_wrong_size() {
    match TdxReportVersion1::generate_mock_report(&[0u8; 1023]) {
        Err(AttestationErr::ReportDataGenerationError(m)) => assert_eq!(m, "cannot copy from bytes"),
        _ => panic!("expected an error"),
    }
    assert!(PackedTdxReportGuest::from_mock_report(&[0u8; 10], vec![]).is_err());
}

#[test]
fn accepted_versions_and_slices() {
    assert_eq!(TdxReportVersion1::accepted_versions(), vec![0, 1]);
    assert!(TdxReportVersion1::accepted_version(0));
    assert!(TdxReportVersion1::accepted_version(1));
    assert!(!TdxReportVersion1::accepted_version(2));
    let rep = TdxReportVersion1::generate_mock_report(&sample_report(0)).unwrap();
    assert!(TdxReportVersion1::accepted_report(&rep));
    assert_eq!(TdxReportVersion1::report_mac_from_report(&rep).len(), 256);
    assert_eq!(TdxReportVersion1::tee_tcb_info_from_report(&rep).len(), 239);
    assert_eq!(TdxReportVersion1::td_info_from_report(&rep).len(), 512);
    assert!(TdxReportVersion1::tee_tcb_info_from_slice(&[0u8; 239]).is_some());
    assert!(TdxReportVersion1::tee_tcb_info_from_slice(&[0u8; 240]).is_none());
    assert!(TdxReportVersion1::td_info_from_slice(&[0u8; 512]).is_some());
    assert!(TdxReportVersion1::td_info_from_slice(&[0u8; 511]).is_none());
}

#[test]
fn report_data_binds_the_hash_in_front() {
    let hash = [0xabu8; 32];
    let data = PackedTdxReportGuest::report_data(&hash);
    assert_eq!(&data[..32], &hash);
    assert_eq!(&data[32..], &[0u8; 32]);
}

#[test]
fn tdx_report_data_encoding() {
    let cop = vec![0x31, 0x00];
    let der = ReportDataV1::hash_input(&[7u8; 32], &cop, Some(&[9u8, 9][..])).unwrap();
    let mut expected = vec![0x30, 0x28, 0x04, 0x20];
    expected.extend_from_slice(&[7u8; 32]);
    expected.extend_from_slice(&[0x31, 0x00, 0x04, 0x02, 9, 9]);
    assert_eq!(der, expected);
    let data = ReportDataV1::new(&[7u8; 32], &cop, None).unwrap();
    assert_eq!(data.appconfig_id, None);
    assert_eq!(data.to_der().unwrap()[1], 0x24);
}

#[test]
fn mac_with_a_long_form_length_decodes() {
    let td_report = sample_report(1);
    let packed =
        PackedTdxReportGuest::from_mock_report(&td_report, MOCK_COPROCESSORS.to_vec()).unwrap();
    let (mac, _) = packed.build_decoupled_report().unwrap();
    let mut ber = vec![0x04, 0x83, 0x00, 0x01, 0x00];
    ber.extend_from_slice(mac.as_ref());
    assert_eq!(TeeReportMac::decode_ber(&ber).unwrap().mac, mac.mac);
    let mut indefinite = vec![0x04, 0x80];
    indefinite.extend_from_slice(mac.as_ref());
    assert!(TeeReportMac::decode_ber(&indefinite).is_err());
}

#[test]
fn measurements_with_long_form_lengths_decode() {
    let td_report = sample_report(1);
    let packed =
        PackedTdxReportGuest::from_mock_report(&td_report, MOCK_COPROCESSORS.to_vec()).unwrap();
    let (_, m) = packed.build_decoupled_report().unwrap();
    let der = m.to_der();
    assert_eq!(&der[..2], &[0x30, 0x82]);
    assert_eq!(&der[4..7], &[0x02, 0x01, 0x01]);
    // The version's length in long form, and the sequence's length in
    // four octets with leading zeros.
    let mut contents = vec![0x02, 0x81, 0x01];
    contents.extend_from_slice(&der[6..]);
    let n = contents.len();
    let mut ber = vec![0x30, 0x84, 0, 0, (n >> 8) as u8, n as u8];
    ber.extend_from_slice(&contents);
    let back = TdxReportMeasurements::decode_ber(&ber).unwrap();
    assert_eq!(back.version, 1);
    // The sequence in indefinite form.
    let mut indefinite = vec![0x30, 0x80];
    indefinite.extend_from_slice(&contents);
    indefinite.extend_from_slice(&[0, 0]);
    assert_eq!(TdxReportMeasurements::decode_ber(&indefinite).unwrap().td_info, m.td_info);
    assert_eq!(back.tee_tcb_info, m.tee_tcb_info);
    assert_eq!(back.td_info, m.td_info);
    assert_eq!(back.coprocessors, m.coprocessors);
}

#[test]
fn measurements_with_a_coprocessor_set() {
    let td_report = sample_report(1);
    let set = CoprocessorAttestationSetV1::new().to_der().unwrap();
    assert_eq!(set, vec![0x31, 0x00]);
    let packed = PackedTdxReportGuest::from_mock_report(&td_report, set.clone()).unwrap();
    let (_, m) = packed.build_decoupled_report().unwrap();
    let (back, s) = TdxReportMeasurements::decode_with_coprocessor_set(&m.to_der()).unwrap();
    assert_eq!(back.coprocessors, set);
    assert_eq!(s.len(), 0);
    // A coprocessor value that is no set of attestations is refused.
    let packed =
        PackedTdxReportGuest::from_mock_report(&td_report, MOCK_COPROCESSORS.to_vec()).unwrap();
    let (_, m) = packed.build_decoupled_report().unwrap();
    assert!(TdxReportMeasurements::decode_ber(&m.to_der()).is_ok());
    assert!(TdxReportMeasurements::decode_with_coprocessor_set(&m.to_der()).is_err());
}
