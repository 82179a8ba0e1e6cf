//! The entries by which evidence travels in a certificate signing request or
//! a certificate: attributes and extensions, as values.

use vstd::prelude::*;

use crate::der::views;

verus! {

/// A CSR attribute: its OID, as arcs, and its values, each a complete DER
/// element.
#[derive(Debug, Clone)]
pub struct Attribute {
    pub oid: Vec<u64>,
    pub value: Vec<Vec<u8>>,
}

/// An X.509 extension: its OID, as arcs, whether it is critical, and its
/// value, the DER encoding of what it carries.
#[derive(Debug, Clone)]
pub struct Extension {
    pub oid: Vec<u64>,
    pub critical: bool,
    pub value: Vec<u8>,
}

impl Attribute {
    /// The attribute with OID `oid` and the single value `der`.
    pub fn single(oid: Vec<u64>, der: Vec<u8>) -> (a: Self)
        ensures
            a.oid@ == oid@,
            views(a.value@) == seq![der@],
    {
        let mut value: Vec<Vec<u8>> = Vec::new();
        let ghost d = der@;
        value.push(der);
        assert(views(value@) =~= seq![d]);
        Attribute { oid, value }
    }
}

impl Extension {
    /// The non-critical extension with OID `oid` and value `der`; evidence
    /// extensions are never critical, despite their importance.
    pub fn evidence(oid: Vec<u64>, der: Vec<u8>) -> (e: Self)
        ensures
            e.oid@ == oid@,
            !e.critical,
            e.value@ == der@,
    {
        Extension { oid, critical: false, value: der }
    }
}

} // verus!
