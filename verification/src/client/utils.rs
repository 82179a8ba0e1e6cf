//! Reading evidence back out of certificates, and the choice of the
//! application configuration.

use vstd::prelude::*;

use super::error::Error;
use pkix::FromDer;

use super::attest::{certificate_pem_to_der, pem_certificate_der};
use crate::csr::Extension;
use crate::text::{arcs_text, join_context};

verus! {

/// Whether two OIDs, as arcs, are equal.
pub fn arcs_equal(a: &[u64], b: &[u64]) -> (r: bool)
    ensures
        r == (a@ == b@),
{
    if a.len() != b.len() {
        return false;
    }
    let mut i: usize = 0;
    while i < a.len()
        invariant
            a@.len() == b@.len(),
            i <= a@.len(),
            forall|j: int| 0 <= j < i ==> a@[j] == b@[j],
        decreases a@.len() - i,
    {
        if a[i] != b[i] {
            return false;
        }
        i = i + 1;
    }
    assert(a@ =~= b@);
    true
}

/// The message when no extension has OID `oid`: the OID in its debug form.
pub open spec fn missing_oid_text(oid: Seq<u64>) -> Seq<char> {
    "failed to find oid ObjectIdentifier { components: ["@ + arcs_text(oid) + "] } in extensions"@
}

/// `format!` of the message when no extension has OID `oid`. Claimed: the
/// arcs are written in decimal, separated by ", ", as `{:?}` writes a
/// vector of integers.
#[verifier::external_body]
fn missing_oid_message(oid: &Vec<u64>) -> (r: String)
    ensures
        r@ == missing_oid_text(oid@),
{
    format!("failed to find oid ObjectIdentifier {{ components: {:?} }} in extensions", oid)
}

/// The index of the first of `extns` with OID `oid`.
pub open spec fn first_with_oid(extns: Seq<Extension>, oid: Seq<u64>, i: int) -> bool {
    &&& 0 <= i < extns.len()
    &&& extns[i].oid@ == oid
    &&& forall|j: int| 0 <= j < i ==> (#[trigger] extns[j]).oid@ != oid
}

/// The value of the first extension with OID `oid`; a certificate error
/// when there is none.
pub fn extract_oid_from_extension(extns: Vec<Extension>, oid: Vec<u64>) -> (r: Result<Vec<u8>, Error>)
    ensures
        r is Ok <==> exists|i: int| 0 <= i < extns@.len() && (#[trigger] extns@[i]).oid@ == oid@,
        r matches Ok(v) ==> exists|i: int| first_with_oid(extns@, oid@, i) && v@ == extns@[i].value@,
        r is Err ==> (r matches Err(Error::CertErr(m)) && m@ == missing_oid_text(oid@)),
{
    let mut i: usize = 0;
    while i < extns.len()
        invariant
            i <= extns@.len(),
            forall|j: int| 0 <= j < i ==> (#[trigger] extns@[j]).oid@ != oid@,
        decreases extns@.len() - i,
    {
        if arcs_equal(extns[i].oid.as_slice(), oid.as_slice()) {
            let v = crate::der::copy_range(extns[i].value.as_slice(), 0, extns[i].value.len());
            assert(first_with_oid(extns@, oid@, i as int));
            return Ok(v);
        }
        i = i + 1;
    }
    Err(Error::CertErr(missing_oid_message(&oid)))
}

/// The application configuration id to attest: the one given, else the one
/// from the environment.
pub fn choose_app_config_id(given: Option<Vec<u8>>, from_env: Option<Vec<u8>>) -> (r: Option<Vec<u8>>)
    ensures
        given is Some ==> r == given,
        given is None ==> r == from_env,
{
    match given {
        Some(g) => Some(g),
        None => from_env,
    }
}

/// The extensions of a certificate as values: (OID arcs, critical, value).
pub open spec fn extension_models(v: Seq<Extension>) -> Seq<(Seq<u64>, bool, Seq<u8>)> {
    v.map_values(|e: Extension| (e.oid@, e.critical, e.value@))
}

/// The name of what `pkix::x509::GenericCertificate::from_der` yields for
/// `der`, by the extensions of the certificate; `None` when it refuses the
/// bytes.
pub uninterp spec fn certificate_extensions(der: Seq<u8>) -> Option<Seq<(Seq<u64>, bool, Seq<u8>)>>;

/// Calls `pkix::x509::GenericCertificate::from_der` and takes the
/// extensions of the certificate; on failure, the debug text of the error.
/// Claimed: the extensions are the named result of `der`; nothing is
/// claimed of the text.
#[verifier::external_body]
fn read_certificate_extensions(der: &[u8]) -> (r: Result<Vec<Extension>, String>)
    ensures
        match r {
            Ok(v) => certificate_extensions(der@) == Some(extension_models(v@)),
            Err(_) => certificate_extensions(der@) is None,
        },
{
    match pkix::x509::GenericCertificate::from_der(der) {
        Ok(cert) => Ok(
            cert.tbscert.extensions.into_iter().map(
                |e| Extension { oid: e.oid.components().clone(), critical: e.critical, value: e.value },
            ).collect(),
        ),
        Err(e) => Err(format!("{:?}", e)),
    }
}

/// The extensions of the certificate `der` (`None` when its PEM did not
/// convert).
pub fn extensions_from_der(der: Option<Vec<u8>>) -> (r: Result<Vec<Extension>, Error>)
    ensures
        match der {
            None => (r matches Err(Error::CertErr(m)) && m@ == "failed to parse pem cert"@),
            Some(d) => match certificate_extensions(d@) {
                None => r matches Err(Error::CertErr(m)) && crate::text::starts_with_context(
                    m@,
                    "failed to parse der cert"@,
                ),
                Some(es) => r matches Ok(v) && extension_models(v@) == es,
            },
        },
{
    match der {
        None => Err(Error::CertErr("failed to parse pem cert".to_owned())),
        Some(d) => match read_certificate_extensions(d.as_slice()) {
            Ok(v) => Ok(v),
            Err(text) => {
                Err(Error::CertErr(join_context("failed to parse der cert", text.as_str())))
            },
        },
    }
}

/// The extensions of the certificate `pem_cert`, given in PEM.
pub fn extract_extensions_from_cert(pem_cert: &str) -> (r: Result<Vec<Extension>, Error>)
    ensures
        match pem_certificate_der(pem_cert@) {
            None => (r matches Err(Error::CertErr(m)) && m@ == "failed to parse pem cert"@),
            Some(d) => match certificate_extensions(d) {
                None => r matches Err(Error::CertErr(m)) && crate::text::starts_with_context(
                    m@,
                    "failed to parse der cert"@,
                ),
                Some(es) => r matches Ok(v) && extension_models(v@) == es,
            },
        },
{
    extensions_from_der(certificate_pem_to_der(pem_cert))
}

} // verus!
