use attestation::nvidia::csr_format::{nvidia_attestation_oid_content, NvidiaAttestationV1};
use attestation::sev::csr_formats::{aci_oid, ReportAndEvidence};
use attestation::sev::report::{Report, REPORT_SIZE};
use attestation::tpm_snp::csr_format::baremetal_snp::{
    AmdSevAttestationBaremetalV1, FqpeCerts, ReportDataV1,
};
use attestation::tpm_snp::csr_format::vtpm::{
    AmdAzureVtpmQuoteV1, AmdAzureVtpmQuoteWithJwtV1, AmdSevAttestationV1, AmdVtpmQuoteV1,
    AssociatedDataPCRV1, EphemeralKeyV1, TpmQuoteV1,
};
use attestation::tpm_snp::csr_format::{CoprocessorAttestationSetV1, CoprocessorAttestationV1};
use attestation::tpm_snp::pkix_compat::baremetal_snp::{
    appconfig_id_oid, attestation_report_snp_oid, baremetal_snp_oid, ftx_qpe_cert_oid,
    sev_snp_chain_oid,
};
use attestation::tpm_snp::pkix_compat::tpm_snp_oid;

const NVIDIA_OID: [u8; 12] = [
    0x2b, 0x06, 0x01, 0x04, 0x01, 0x83, 0x84, 0x1a, 0x02, 0x02, 0x0b, 0x01,
];

fn gpu_attestation() -> NvidiaAttestationV1 {
    NvidiaAttestationV1 {
        attestation_report: vec![1, 2],
        // SEQUENCE { INTEGER 5 }
        certificates: vec![vec![0x30, 0x03, 0x02, 0x01, 0x05]],
    }
}

fn coprocessor(t: u8, d: u8) -> CoprocessorAttestationV1 {
    CoprocessorAttestationV1 {
        coprocessor_type: vec![t],
        data: vec![vec![d]],
    }
}

#[test]
fn report_and_evidence_encoding_and_decoding() {
    let r = ReportAndEvidence {
        report: vec![1, 2, 3],
        certificates: vec![vec![0x30, 0x00]],
    };
    let der = r.to_der();
    assert_eq!(
        der,
        vec![0x30, 0x09, 0x04, 0x03, 1, 2, 3, 0x30, 0x02, 0x30, 0x00]
    );
    let back = ReportAndEvidence::decode_ber(&der).unwrap();
    assert_eq!(back.report, r.report);
    assert_eq!(back.certificates, r.certificates);
    let mut trailing = der.clone();
    trailing.push(0);
    assert!(ReportAndEvidence::decode_ber(&trailing).is_err());
    assert!(ReportAndEvidence::decode_ber(&der[..der.len() - 1]).is_err());
    // A length in long form, as BER allows: read by the BER reader only.
    let ber = vec![0x30, 0x81, 0x0b, 0x04, 0x03, 1, 2, 3, 0x30, 0x82, 0x00, 0x02, 0x30, 0x00];
    let back = ReportAndEvidence::decode_ber(&ber).unwrap();
    assert_eq!(back.report, r.report);
    assert_eq!(back.certificates, r.certificates);
    assert!(ReportAndEvidence::decode_der(&ber).is_err());
    assert_eq!(ReportAndEvidence::decode_der(&der).unwrap().report, r.report);
    // Both sequences in indefinite form.
    let indefinite = vec![
        0x30, 0x80, 0x04, 0x03, 1, 2, 3, 0x30, 0x80, 0x30, 0x00, 0x00, 0x00, 0x00, 0x00,
    ];
    let back = ReportAndEvidence::decode_ber(&indefinite).unwrap();
    assert_eq!(back.report, r.report);
    assert_eq!(back.certificates, r.certificates);
    assert!(ReportAndEvidence::decode_der(&indefinite).is_err());
    // A certificate that starts with an end-of-contents octet.
    let eoc = vec![0x30, 0x07, 0x04, 0x01, 5, 0x30, 0x02, 0x00, 0x00];
    assert!(ReportAndEvidence::decode_ber(&eoc).is_err());
    let attr = r.to_attribute();
    assert_eq!(attr.oid, vec![1, 3, 6, 1, 4, 1, 49690, 2, 2, 10]);
    assert_eq!(attr.value, vec![der.clone()]);
    let ext = r.to_extension();
    assert_eq!(ext.oid, aci_oid());
    assert!(!ext.critical);
    assert_eq!(ext.value, der);
}

#[test]
fn coprocessor_attestation_encoding() {
    let c = CoprocessorAttestationV1 {
        coprocessor_type: NVIDIA_OID.to_vec(),
        data: vec![vec![0xaa]],
    };
    let mut expected = vec![0x30, 0x13, 0x06, 0x0c];
    expected.extend_from_slice(&NVIDIA_OID);
    expected.extend_from_slice(&[0x30, 0x03, 0x04, 0x01, 0xaa]);
    assert_eq!(c.to_der().unwrap(), expected);
    assert_eq!(c.encode(), expected);
}

#[test]
fn coprocessor_set_is_sorted_by_encoding() {
    let set =
        CoprocessorAttestationSetV1::try_from(vec![coprocessor(2, 9), coprocessor(1, 8)]).unwrap();
    assert_eq!(set.len(), 2);
    let elements = set.as_slice();
    assert_eq!(elements[0].coprocessor_type, vec![1]);
    assert_eq!(elements[1].coprocessor_type, vec![2]);
    let der = set.to_der().unwrap();
    assert_eq!(der[0], 0x31);
    assert_eq!(der[1] as usize, der.len() - 2);
    assert_eq!(&der[2..], &[&elements[0].encode()[..], &elements[1].encode()[..]].concat()[..]);
    let copy = set.duplicate();
    assert_eq!(copy.to_der().unwrap(), der);
}

#[test]
fn coprocessor_set_refuses_a_repeated_type_or_encoding() {
    assert!(
        CoprocessorAttestationSetV1::try_from(vec![coprocessor(1, 8), coprocessor(1, 9)]).is_err()
    );
    assert!(
        CoprocessorAttestationSetV1::try_from(vec![coprocessor(1, 8), coprocessor(1, 8)]).is_err()
    );
    let empty = CoprocessorAttestationSetV1::try_from(vec![]).unwrap();
    assert_eq!(empty.len(), 0);
    assert_eq!(empty.to_der().unwrap(), vec![0x31, 0x00]);
    assert_eq!(CoprocessorAttestationSetV1::new().len(), 0);
}

#[test]
fn nvidia_attestation_roundtrip() {
    let a = gpu_attestation();
    let der = a.to_der().unwrap();
    assert_eq!(
        der,
        vec![0x30, 0x0b, 0x04, 0x02, 1, 2, 0x30, 0x05, 0x30, 0x03, 0x02, 0x01, 0x05]
    );
    let back = NvidiaAttestationV1::from_der(&der).unwrap();
    assert_eq!(back.attestation_report, a.attestation_report);
    assert_eq!(back.certificates, a.certificates);
    assert_eq!(nvidia_attestation_oid_content(), NVIDIA_OID.to_vec());
}

#[test]
fn nvidia_certificate_with_a_tag_der_does_not_know_is_refused() {
    // Universal tag 7 frames correctly but is no tag the der crate reads.
    let der = vec![0x30, 0x08, 0x04, 0x02, 1, 2, 0x30, 0x02, 0x07, 0x00];
    assert!(ReportAndEvidence::decode_ber(&der).is_ok());
    assert!(NvidiaAttestationV1::from_der(&der).is_err());
}

#[test]
fn nvidia_coprocessor_conversions() {
    let a = gpu_attestation();
    let c = CoprocessorAttestationV1::try_from_nvidia(vec![a.clone(), a.clone()]).unwrap();
    assert_eq!(c.coprocessor_type, NVIDIA_OID.to_vec());
    assert_eq!(c.data, vec![a.to_der().unwrap(), a.to_der().unwrap()]);
    let back = c.to_nvidia_attestations().unwrap();
    assert_eq!(back.len(), 2);
    assert_eq!(back[1].certificates, a.certificates);
    let other = coprocessor(1, 8);
    assert_eq!(
        other.to_nvidia_attestations().unwrap_err(),
        "Coprocessor type does not match"
    );
    let broken = CoprocessorAttestationV1 {
        coprocessor_type: NVIDIA_OID.to_vec(),
        data: vec![vec![0x04, 0x00]],
    };
    assert!(broken.to_nvidia_attestations().is_err());
}

#[test]
fn gpu_attestations_become_at_most_one_coprocessor() {
    let none = CoprocessorAttestationSetV1::from_gpu_attestations(None).unwrap();
    assert_eq!(none.len(), 0);
    let one =
        CoprocessorAttestationSetV1::from_gpu_attestations(Some(vec![gpu_attestation()])).unwrap();
    assert_eq!(one.len(), 1);
    assert_eq!(one.as_slice()[0].coprocessor_type, NVIDIA_OID.to_vec());
    let set = AmdSevAttestationBaremetalV1::evidence_coprocessors(None).unwrap();
    assert_eq!(set.len(), 0);
}

#[test]
fn associated_data_encoding() {
    let join = [0x11u8; 64];
    let spki = [0x22u8; 32];
    let data = AssociatedDataPCRV1::new(&join, &spki, CoprocessorAttestationSetV1::new()).unwrap();
    assert!(data.appconfig_id.is_none());
    let der = data.to_der().unwrap();
    assert_eq!(der.len(), 104);
    assert_eq!(&der[..4], &[0x30, 0x66, 0x04, 0x40]);
    assert_eq!(&der[68..70], &[0x04, 0x20]);
    assert_eq!(&der[102..], &[0x31, 0x00]);
}

#[test]
fn baremetal_report_data_encoding() {
    let data =
        ReportDataV1::new(&[7u8; 32], CoprocessorAttestationSetV1::new(), Some(&[9u8, 9][..])).unwrap();
    let der = data.to_der().unwrap();
    let mut expected = vec![0x30, 0x2a, 0x04, 0x20];
    expected.extend_from_slice(&[7u8; 32]);
    expected.extend_from_slice(&[0x31, 0x00, 0xa0, 0x04, 0x04, 0x02, 9, 9]);
    assert_eq!(der, expected);
    assert_eq!(data.hash_input().unwrap(), expected);
    let without = ReportDataV1::new(&[7u8; 32], CoprocessorAttestationSetV1::new(), None).unwrap();
    assert_eq!(without.to_der().unwrap()[1], 0x24);
}

#[test]
fn baremetal_evidence_carries_the_report() {
    let mut bytes = vec![0u8; REPORT_SIZE];
    bytes[0] = 3;
    let report = Report::try_from_slice(&bytes).unwrap();
    let evidence = AmdSevAttestationBaremetalV1::from_report(&report, CoprocessorAttestationSetV1::new());
    assert_eq!(evidence.attestation_report, bytes);
    let der = evidence.to_der().unwrap();
    assert_eq!(&der[..8], &[0x30, 0x82, 0x04, 0xa6, 0x04, 0x82, 0x04, 0xa0]);
    assert_eq!(&der[der.len() - 2..], &[0x31, 0x00]);
    assert_eq!(evidence.extract_sev_report().unwrap().as_slice(), bytes);
    let attr = evidence.to_attribute().unwrap();
    assert_eq!(attr.oid, baremetal_snp_oid());
    assert_eq!(attr.value, vec![der.clone()]);
    let ext = evidence.to_extension().unwrap();
    assert!(!ext.critical);
    assert_eq!(ext.value, der);
    let broken = AmdSevAttestationBaremetalV1 {
        attestation_report: vec![1, 2, 3],
        coprocessors: CoprocessorAttestationSetV1::new(),
    };
    assert!(broken
        .extract_sev_report()
        .unwrap_err()
        .starts_with("unable to extract report : "));
}

#[test]
fn fqpe_certificates_encoding() {
    let certs = FqpeCerts {
        certificates: vec![vec![0x30, 0x00], vec![0x30, 0x01, 0x05]],
    };
    let der = certs.to_der().unwrap();
    assert_eq!(der, vec![0x30, 0x07, 0x30, 0x05, 0x30, 0x00, 0x30, 0x01, 0x05]);
    let attr = certs.to_attribute().unwrap();
    assert_eq!(attr.oid, ftx_qpe_cert_oid());
    assert_eq!(attr.value, vec![der]);
}

#[test]
fn ephemeral_key_encoding() {
    let key = EphemeralKeyV1 {
        encryption_key: vec![1],
        certify_info: vec![2],
        certify_info_signature: vec![3],
    };
    assert_eq!(
        key.to_der().unwrap(),
        vec![0x30, 0x09, 0x04, 0x01, 1, 0x04, 0x01, 2, 0x04, 0x01, 3]
    );
}

#[test]
fn amd_attestation_conversions() {
    let pkix = ReportAndEvidence {
        report: vec![5],
        certificates: vec![vec![0x30, 0x00]],
    };
    let amd = AmdSevAttestationV1::try_from(pkix).unwrap();
    assert_eq!(amd.attestation_report, vec![5]);
    assert_eq!(amd.to_der().unwrap(), vec![0x30, 0x07, 0x04, 0x01, 5, 0x30, 0x02, 0x30, 0x00]);
    let back = ReportAndEvidence::from(amd);
    assert_eq!(back.certificates, vec![vec![0x30, 0x00]]);
    // An OCTET STRING is no SEQUENCE document.
    let not_a_certificate = ReportAndEvidence {
        report: vec![5],
        certificates: vec![vec![0x04, 0x00]],
    };
    assert!(AmdSevAttestationV1::try_from(not_a_certificate).is_err());
}

#[test]
fn fortanix_oids() {
    assert_eq!(tpm_snp_oid(), vec![1, 3, 6, 1, 4, 1, 49690, 2, 2, 8]);
    assert_eq!(attestation_report_snp_oid(), vec![1, 3, 6, 1, 4, 1, 49690, 2, 2, 7]);
    assert_eq!(baremetal_snp_oid(), vec![1, 3, 6, 1, 4, 1, 49690, 2, 2, 14]);
    assert_eq!(appconfig_id_oid(), vec![1, 3, 6, 1, 4, 1, 49690, 1, 3, 4]);
    assert_eq!(sev_snp_chain_oid(), vec![1, 3, 6, 1, 4, 1, 49690, 2, 2, 15]);
    assert_eq!(ftx_qpe_cert_oid(), vec![1, 3, 6, 1, 4, 1, 49690, 2, 2, 1]);
}

#[test]
fn coprocessor_attestation_reads_back() {
    let c = CoprocessorAttestationV1::try_from_nvidia(vec![gpu_attestation()]).unwrap();
    let der = c.to_der().unwrap();
    let back = CoprocessorAttestationV1::from_der(&der).unwrap();
    assert_eq!(back.coprocessor_type, c.coprocessor_type);
    assert_eq!(back.data, c.data);
    // An OID whose contents end inside an arc is refused by der.
    let bad = CoprocessorAttestationV1 {
        coprocessor_type: vec![0x2b, 0x86],
        data: vec![],
    };
    assert!(CoprocessorAttestationV1::from_der(&bad.to_der().unwrap()).is_err());
}

fn oid_coprocessor(last: u8, d: u8) -> CoprocessorAttestationV1 {
    let mut t = NVIDIA_OID.to_vec();
    *t.last_mut().unwrap() = last;
    CoprocessorAttestationV1 {
        coprocessor_type: t,
        data: vec![vec![d]],
    }
}

#[test]
fn coprocessor_set_reads_back_in_order() {
    let set = CoprocessorAttestationSetV1::try_from(vec![oid_coprocessor(2, 7), oid_coprocessor(1, 9)])
        .unwrap();
    let der = set.to_der().unwrap();
    let back = CoprocessorAttestationSetV1::from_der(&der).unwrap();
    assert_eq!(back.to_der().unwrap(), der);
    assert_eq!(back.as_slice()[0].coprocessor_type, oid_coprocessor(1, 9).coprocessor_type);
    // Elements out of order are sorted as they are read.
    let a = oid_coprocessor(2, 7).encode();
    let b = oid_coprocessor(1, 9).encode();
    let mut unsorted = vec![0x31, (a.len() + b.len()) as u8];
    unsorted.extend_from_slice(&a);
    unsorted.extend_from_slice(&b);
    let read = CoprocessorAttestationSetV1::from_der(&unsorted).unwrap();
    assert_eq!(read.to_der().unwrap(), der);
    // The same type twice is refused.
    let c = oid_coprocessor(2, 8).encode();
    let mut twice = vec![0x31, (a.len() + c.len()) as u8];
    twice.extend_from_slice(&a);
    twice.extend_from_slice(&c);
    assert!(CoprocessorAttestationSetV1::from_der(&twice).is_err());
}

#[test]
fn baremetal_evidence_reads_back() {
    let set = CoprocessorAttestationSetV1::from_gpu_attestations(Some(vec![gpu_attestation()])).unwrap();
    let evidence = AmdSevAttestationBaremetalV1 {
        attestation_report: vec![1, 2, 3],
        coprocessors: set,
    };
    let der = evidence.to_der().unwrap();
    let back = AmdSevAttestationBaremetalV1::from_der(&der).unwrap();
    assert_eq!(back.attestation_report, vec![1, 2, 3]);
    assert_eq!(back.to_der().unwrap(), der);
    assert!(AmdSevAttestationBaremetalV1::from_der(&der[..der.len() - 1]).is_err());
}

#[test]
fn fqpe_certificates_read_back() {
    let certs = FqpeCerts {
        certificates: vec![vec![0x30, 0x00], vec![0x30, 0x03, 0x02, 0x01, 0x05]],
    };
    let der = certs.to_der().unwrap();
    let back = FqpeCerts::from_der(&der).unwrap();
    assert_eq!(back.certificates, certs.certificates);
    let not_documents = FqpeCerts {
        certificates: vec![vec![0x07, 0x00]],
    };
    assert!(FqpeCerts::from_der(&not_documents.to_der().unwrap()).is_err());
}

fn sample_quote() -> AmdAzureVtpmQuoteWithJwtV1 {
    let coprocessors =
        CoprocessorAttestationSetV1::from_gpu_attestations(Some(vec![gpu_attestation()])).unwrap();
    AmdAzureVtpmQuoteWithJwtV1 {
        quote: AmdAzureVtpmQuoteV1 {
            quote: AmdVtpmQuoteV1 {
                amd: AmdSevAttestationV1 {
                    attestation_report: vec![1, 2, 3],
                    certificates: vec![vec![0x30, 0x00]],
                },
                quote: TpmQuoteV1 {
                    message: vec![4],
                    signature: vec![5],
                    signature_algorithm: vec![6],
                    pcrs: vec![vec![7; 32], vec![8; 32]],
                    uefi_event_log: vec![9, 9],
                    certificates: vec![vec![0x30, 0x03, 0x02, 0x01, 0x05]],
                    ak_pub: vec![10],
                },
                coprocessors,
            },
            hcl_report_variable_data: vec![11],
            ephemeral_key: EphemeralKeyV1 {
                encryption_key: vec![12],
                certify_info: vec![13],
                certify_info_signature: vec![14],
            },
        },
        maa_jwt: b"token".to_vec(),
    }
}

#[test]
fn vtpm_quote_reads_back() {
    let q = sample_quote();
    let der = q.to_der().unwrap();
    let back = AmdAzureVtpmQuoteWithJwtV1::from_der(&der).unwrap();
    assert_eq!(back.maa_jwt, b"token".to_vec());
    assert_eq!(back.quote.hcl_report_variable_data, vec![11]);
    assert_eq!(back.quote.ephemeral_key.certify_info, vec![13]);
    let inner = &back.quote.quote;
    assert_eq!(inner.amd.attestation_report, vec![1, 2, 3]);
    assert_eq!(inner.quote.pcrs, vec![vec![7; 32], vec![8; 32]]);
    assert_eq!(inner.quote.certificates, vec![vec![0x30, 0x03, 0x02, 0x01, 0x05]]);
    assert_eq!(inner.quote.ak_pub, vec![10]);
    assert_eq!(inner.coprocessors.len(), 1);
    assert_eq!(back.to_der().unwrap(), der);
    assert!(AmdAzureVtpmQuoteWithJwtV1::from_der(&der[..der.len() - 1]).is_err());
    let key = EphemeralKeyV1::from_der(&q.quote.ephemeral_key.to_der().unwrap()).unwrap();
    assert_eq!(key.certify_info_signature, vec![14]);
    let tpm = TpmQuoteV1::from_der(&q.quote.quote.quote.to_der().unwrap()).unwrap();
    assert_eq!(tpm.uefi_event_log, vec![9, 9]);
    let amd = AmdSevAttestationV1::from_der(&q.quote.quote.amd.to_der().unwrap()).unwrap();
    assert_eq!(amd.certificates, vec![vec![0x30, 0x00]]);
    let vtpm = AmdVtpmQuoteV1::from_der(&q.quote.quote.to_der().unwrap()).unwrap();
    assert_eq!(vtpm.quote.message, vec![4]);
    let azure = AmdAzureVtpmQuoteV1::from_der(&q.quote.to_der().unwrap()).unwrap();
    assert_eq!(azure.hcl_report_variable_data, vec![11]);
}

#[test]
fn associated_data_reads_back() {
    let data = AssociatedDataPCRV1::new(&[1u8; 64], &[2u8; 32], CoprocessorAttestationSetV1::new()).unwrap();
    let back = AssociatedDataPCRV1::from_der(&data.to_der().unwrap()).unwrap();
    assert_eq!(back.join_token, vec![1u8; 64]);
    assert_eq!(back.spki, vec![2u8; 32]);
    assert_eq!(back.appconfig_id, None);
    let with_id = AssociatedDataPCRV1 {
        join_token: vec![1],
        spki: vec![2],
        coprocessors: CoprocessorAttestationSetV1::new(),
        appconfig_id: Some(vec![3, 4]),
    };
    let der = with_id.to_der().unwrap();
    assert_eq!(
        der,
        vec![0x30, 0x0e, 0x04, 0x01, 1, 0x04, 0x01, 2, 0x31, 0x00, 0xa0, 0x04, 0x04, 0x02, 3, 4]
    );
    assert_eq!(AssociatedDataPCRV1::from_der(&der).unwrap().appconfig_id, Some(vec![3, 4]));
}

#[test]
fn report_data_reads_back() {
    let data =
        ReportDataV1::new(&[7u8; 32], CoprocessorAttestationSetV1::new(), Some(&[9u8, 9][..])).unwrap();
    let back = ReportDataV1::from_der(&data.to_der().unwrap()).unwrap();
    assert_eq!(back.spki, vec![7u8; 32]);
    assert_eq!(back.appconfig_id, Some(vec![9, 9]));
    let without = ReportDataV1::new(&[7u8; 32], CoprocessorAttestationSetV1::new(), None).unwrap();
    let back = ReportDataV1::from_der(&without.to_der().unwrap()).unwrap();
    assert_eq!(back.appconfig_id, None);
}
