//! The bare-metal SEV-SNP evidence and the quoting enclave certificates as
//! CSR attributes and extensions, and the OIDs that name what a bare-metal
//! guest puts in its CSRs.

use vstd::prelude::*;

use super::{fortanix_arcs, fortanix_oid};
use crate::csr::{Attribute, Extension};
use crate::der::{views, Asn1Error, DER_MAX_LEN};
use crate::tpm_snp::csr_format::baremetal_snp::{AmdSevAttestationBaremetalV1, FqpeCerts};

verus! {

/// The OID of the `ATTESTATION_REPORT` of AMD SEV-SNP: 1.3.6.1.4.1.49690.2.2.7.
pub fn attestation_report_snp_oid() -> (r: Vec<u64>)
    ensures
        r@ == fortanix_arcs(seq![2u64, 2, 7]),
{
    let t = [2u64, 2, 7];
    assert(t@ =~= seq![2u64, 2, 7]);
    fortanix_oid(&t)
}

/// The OID that names `AmdSevAttestationBaremetalV1`: 1.3.6.1.4.1.49690.2.2.14.
pub fn baremetal_snp_oid() -> (r: Vec<u64>)
    ensures
        r@ == fortanix_arcs(seq![2u64, 2, 14]),
{
    let t = [2u64, 2, 14];
    assert(t@ =~= seq![2u64, 2, 14]);
    fortanix_oid(&t)
}

/// The OID of the application configuration id: 1.3.6.1.4.1.49690.1.3.4.
pub fn appconfig_id_oid() -> (r: Vec<u64>)
    ensures
        r@ == fortanix_arcs(seq![1u64, 3, 4]),
{
    let t = [1u64, 3, 4];
    assert(t@ =~= seq![1u64, 3, 4]);
    fortanix_oid(&t)
}

/// The OID of the SEV-SNP certificate chain: 1.3.6.1.4.1.49690.2.2.15.
pub fn sev_snp_chain_oid() -> (r: Vec<u64>)
    ensures
        r@ == fortanix_arcs(seq![2u64, 2, 15]),
{
    let t = [2u64, 2, 15];
    assert(t@ =~= seq![2u64, 2, 15]);
    fortanix_oid(&t)
}

/// The OID of the quoting enclave certificates: 1.3.6.1.4.1.49690.2.2.1.
pub fn ftx_qpe_cert_oid() -> (r: Vec<u64>)
    ensures
        r@ == fortanix_arcs(seq![2u64, 2, 1]),
{
    let t = [2u64, 2, 1];
    assert(t@ =~= seq![2u64, 2, 1]);
    fortanix_oid(&t)
}

impl AmdSevAttestationBaremetalV1 {
    /// The evidence as a CSR attribute named by [`baremetal_snp_oid`].
    pub fn to_attribute(&self) -> (r: Result<Attribute, Asn1Error>)
        ensures
            r is Ok <==> self.der().len() <= DER_MAX_LEN,
            r matches Ok(a) ==> a.oid@ == fortanix_arcs(seq![2u64, 2, 14]) && views(a.value@) == seq![
                self.der(),
            ],
    {
        let der = self.to_der()?;
        Ok(Attribute::single(baremetal_snp_oid(), der))
    }

    /// The evidence as a non-critical extension named by
    /// [`baremetal_snp_oid`].
    pub fn to_extension(&self) -> (r: Result<Extension, Asn1Error>)
        ensures
            r is Ok <==> self.der().len() <= DER_MAX_LEN,
            r matches Ok(e) ==> e.oid@ == fortanix_arcs(seq![2u64, 2, 14]) && !e.critical && e.value@
                == self.der(),
    {
        let der = self.to_der()?;
        Ok(Extension::evidence(baremetal_snp_oid(), der))
    }
}

impl FqpeCerts {
    /// The certificates as a CSR attribute named by [`ftx_qpe_cert_oid`].
    pub fn to_attribute(&self) -> (r: Result<Attribute, Asn1Error>)
        ensures
            r is Ok <==> self.der().len() <= DER_MAX_LEN,
            r matches Ok(a) ==> a.oid@ == fortanix_arcs(seq![2u64, 2, 1]) && views(a.value@) == seq![
                self.der(),
            ],
    {
        let der = self.to_der()?;
        Ok(Attribute::single(ftx_qpe_cert_oid(), der))
    }
}

} // verus!
