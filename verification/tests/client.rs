use attestation::client::attest::{fqpe_attribute, fqpe_attribute_from_der};
use attestation::client::certificate::{alt_names, AppCertMetadata};
use attestation::client::error::Error;
use attestation::client::utils::{
    choose_app_config_id, extract_extensions_from_cert, extract_oid_from_extension,
};
use attestation::client::vsock_connector::VsockConnector;
use attestation::client::{
    connect_step, unreachable_node_agent, BaremetalSevSnp, BaremetalTdx, ConnectStep, MAX_RETRIES,
};
use attestation::csr::Extension;
use attestation::tdx::guest::PackedTdxReportGuest;
use attestation::tpm_snp::csr_format::baremetal_snp::AmdSevAttestationBaremetalV1;
use attestation::tpm_snp::csr_format::CoprocessorAttestationSetV1;
use attestation::tpm_snp::pkix_compat::baremetal_snp::{appconfig_id_oid, baremetal_snp_oid};

#[test]
fn app_cert_metadata_defaults() {
    let m = AppCertMetadata::init(None, None).unwrap();
    assert_eq!(m.key_path, "/opt/fortanix/attestation-client/key.pem");
    assert_eq!(m.cert_path, "/opt/fortanix/attestation-client/cert.pem");
    let m = AppCertMetadata::init(Some("/tmp/k.pem"), None).unwrap();
    assert_eq!(m.key_path, "/tmp/k.pem");
    assert_eq!(m.cert_path, "/opt/fortanix/attestation-client/cert.pem");
    let m = AppCertMetadata::init(None, Some("/tmp/c.pem")).unwrap();
    assert_eq!(m.key_path, "/opt/fortanix/attestation-client/key.pem");
    assert_eq!(m.cert_path, "/tmp/c.pem");
}

#[test]
fn extension_lookup_by_oid() {
    let extns = vec![
        Extension {
            oid: vec![1, 2, 3],
            critical: false,
            value: vec![1],
        },
        Extension {
            oid: vec![1, 2, 4],
            critical: true,
            value: vec![2],
        },
        Extension {
            oid: vec![1, 2, 4],
            critical: false,
            value: vec![3],
        },
    ];
    assert_eq!(
        extract_oid_from_extension(extns.clone(), vec![1, 2, 4]).unwrap(),
        vec![2]
    );
    match extract_oid_from_extension(extns, vec![9, 9]) {
        Err(Error::CertErr(m)) => assert_eq!(
            m,
            "failed to find oid ObjectIdentifier { components: [9, 9] } in extensions"
        ),
        _ => panic!("expected a certificate error"),
    }
}

#[test]
fn node_agent_is_tried_ten_times() {
    assert_eq!(MAX_RETRIES, 10);
    assert_eq!(connect_step(1, true), ConnectStep::Connected);
    assert_eq!(connect_step(1, false), ConnectStep::WaitAndRetry);
    assert_eq!(connect_step(9, false), ConnectStep::WaitAndRetry);
    assert_eq!(connect_step(10, false), ConnectStep::WaitAndGiveUp);
    assert_eq!(connect_step(10, true), ConnectStep::Connected);
    match unreachable_node_agent() {
        Error::NACliErr(m) => assert_eq!(
            m,
            "failed to reach node agent after 10 attempts. Is it installed correctly?"
        ),
        _ => panic!("expected a node agent error"),
    }
}

#[test]
fn vsock_connector_serves_http_only() {
    let c = VsockConnector;
    assert_eq!(c.target(&"http".to_string(), 40).unwrap(), (2, 40));
    assert_eq!(
        c.target(&"https".to_string(), 40).unwrap_err(),
        "VsockConnector only supports http scheme"
    );
}

#[test]
fn app_config_id_choice() {
    assert_eq!(
        choose_app_config_id(Some(vec![1]), Some(vec![2])),
        Some(vec![1])
    );
    assert_eq!(choose_app_config_id(None, Some(vec![2])), Some(vec![2]));
    assert_eq!(choose_app_config_id(None, None), None);
}

#[test]
fn sev_local_attestation_subject() {
    let evidence = AmdSevAttestationBaremetalV1 {
        attestation_report: vec![1, 2],
        coprocessors: CoprocessorAttestationSetV1::new(),
    };
    let der = evidence.to_der().unwrap();
    let subject = BaremetalSevSnp::local_attestation_subject(&evidence, None).unwrap();
    assert_eq!(subject.len(), 1);
    assert_eq!(subject[0].oid, baremetal_snp_oid());
    assert_eq!(subject[0].value, der);
    let subject =
        BaremetalSevSnp::local_attestation_subject(&evidence, Some(&[7u8, 8][..])).unwrap();
    assert_eq!(subject.len(), 2);
    assert_eq!(subject[1].oid, appconfig_id_oid());
    assert_eq!(subject[1].value, vec![0x04, 0x02, 7, 8]);
}

#[test]
fn tdx_local_attestation_request() {
    let mut td_report = vec![0u8; 1024];
    td_report[0] = 0x81;
    let packed = PackedTdxReportGuest::from_mock_report(&td_report, vec![0x31, 0x00]).unwrap();
    let (subject, attributes) =
        BaremetalTdx::local_attestation_request(&packed, Some(&[5u8][..])).unwrap();
    let (mac, measurements) = packed.build_decoupled_report().unwrap();
    assert_eq!(subject.len(), 2);
    assert_eq!(subject[0].value, measurements.to_der());
    assert_eq!(subject[1].value, vec![0x04, 0x01, 5]);
    assert_eq!(attributes.len(), 1);
    assert_eq!(attributes[0].value, vec![mac.to_der()]);
    let set = BaremetalTdx::gpu_coprocessors(None).unwrap();
    assert_eq!(set.len(), 0);
}

#[test]
fn fqpe_certificates_from_the_attestation_response() {
    match fqpe_attribute(None, Some("x".to_string())) {
        Err(Error::AttestErr(m)) => assert_eq!(m, "failed to obtain attestation certificate"),
        _ => panic!("expected an attestation error"),
    }
    match fqpe_attribute(Some("x".to_string()), None) {
        Err(Error::AttestErr(m)) => assert_eq!(m, "failed to get node certificate"),
        _ => panic!("expected an attestation error"),
    }
    match fqpe_attribute(Some("not pem".to_string()), Some("not pem".to_string())) {
        Err(Error::ConversionErr(m)) => {
            assert_eq!(m, "failed to convert attestation certificate from pem to der format")
        }
        _ => panic!("expected a conversion error"),
    }
    let good = "-----BEGIN CERTIFICATE-----\nMAA=\n-----END CERTIFICATE-----\n".to_string();
    match fqpe_attribute(Some(good), Some("not pem".to_string())) {
        Err(Error::ConversionErr(m)) => {
            assert_eq!(m, "failed to convert node certificate from pem to der format")
        }
        _ => panic!("expected a conversion error"),
    }
    // SEQUENCE {} in PEM: MAA= is base64 of 30 00.
    let pem = "-----BEGIN CERTIFICATE-----\nMAA=\n-----END CERTIFICATE-----\n".to_string();
    let attr = fqpe_attribute(Some(pem.clone()), Some(pem)).unwrap();
    assert_eq!(attr.oid, vec![1, 3, 6, 1, 4, 1, 49690, 2, 2, 1]);
    assert_eq!(
        attr.value,
        vec![vec![0x30, 0x06, 0x30, 0x04, 0x30, 0x00, 0x30, 0x00]]
    );
}

#[test]
fn fqpe_certificates_must_be_der_documents() {
    match fqpe_attribute_from_der(Some(vec![0x30, 0x00]), Some(vec![0x30])) {
        Err(Error::AttestErr(m)) => assert!(m.starts_with("failed to read fqpe certs : ")),
        _ => panic!("expected an attestation error"),
    }
    assert!(matches!(
        fqpe_attribute_from_der(None, Some(vec![0x30, 0x00])),
        Err(Error::ConversionErr(_))
    ));
}

#[test]
fn alt_names_from_the_variable() {
    assert_eq!(alt_names(None), None);
    assert_eq!(alt_names(Some("  \t ")), None);
    assert_eq!(
        alt_names(Some(" a.example.com,b.example.com \n")),
        Some(vec!["a.example.com".to_string(), "b.example.com".to_string()])
    );
    assert_eq!(
        alt_names(Some("x,,y")),
        Some(vec!["x".to_string(), "".to_string(), "y".to_string()])
    );
    assert_eq!(alt_names(Some("one")), Some(vec!["one".to_string()]));
}

const DEVICE_IDENTITY_CA: &str = "-----BEGIN CERTIFICATE-----
MIICCzCCAZCgAwIBAgIQLTZwscoQBBHB/sDoKgZbVDAKBggqhkjOPQQDAzA1MSIw
IAYDVQQDDBlOVklESUEgRGV2aWNlIElkZW50aXR5IENBMQ8wDQYDVQQKDAZOVklE
SUEwIBcNMjExMTA1MDAwMDAwWhgPOTk5OTEyMzEyMzU5NTlaMDUxIjAgBgNVBAMM
GU5WSURJQSBEZXZpY2UgSWRlbnRpdHkgQ0ExDzANBgNVBAoMBk5WSURJQTB2MBAG
ByqGSM49AgEGBSuBBAAiA2IABA5MFKM7+KViZljbQSlgfky/RRnEQScW9NDZF8SX
gAW96r6u/Ve8ZggtcYpPi2BS4VFu6KfEIrhN6FcHG7WP05W+oM+hxj7nyA1r1jkB
2Ry70YfThX3Ba1zOryOP+MJ9vaNjMGEwDwYDVR0TAQH/BAUwAwEB/zAOBgNVHQ8B
Af8EBAMCAQYwHQYDVR0OBBYEFFeF/4PyY8xlfWi3Olv0jUrL+0lfMB8GA1UdIwQY
MBaAFFeF/4PyY8xlfWi3Olv0jUrL+0lfMAoGCCqGSM49BAMDA2kAMGYCMQCPeFM3
TASsKQVaT+8S0sO9u97PVGCpE9d/I42IT7k3UUOLSR/qvJynVOD1vQKVXf0CMQC+
EY55WYoDBvs2wPAH1Gw4LbcwUN8QCff8bFmV4ZxjCRr4WXTLFHBKjbfneGSBWwA=
-----END CERTIFICATE-----
";

#[test]
fn certificate_extensions_from_pem() {
    let extns = extract_extensions_from_cert(DEVICE_IDENTITY_CA).unwrap();
    let oids: Vec<Vec<u64>> = extns.iter().map(|e| e.oid.clone()).collect();
    assert_eq!(
        oids,
        vec![vec![2, 5, 29, 19], vec![2, 5, 29, 15], vec![2, 5, 29, 14], vec![2, 5, 29, 35]]
    );
    assert!(extns[0].critical);
    assert!(!extns[2].critical);
    assert_eq!(
        extract_oid_from_extension(extns, vec![2, 5, 29, 15]).unwrap(),
        vec![0x03, 0x02, 0x01, 0x06]
    );
}

#[test]
fn certificate_extensions_refuse_bad_input() {
    match extract_extensions_from_cert("not pem") {
        Err(Error::CertErr(m)) => assert_eq!(m, "failed to parse pem cert"),
        _ => panic!("expected a certificate error"),
    }
    let pem = "-----BEGIN CERTIFICATE-----\nMAA=\n-----END CERTIFICATE-----\n";
    match extract_extensions_from_cert(pem) {
        Err(Error::CertErr(m)) => assert!(m.starts_with("failed to parse der cert : ")),
        _ => panic!("expected a certificate error"),
    }
}
