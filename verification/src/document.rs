//! Certificates carried as DER documents. Whether a byte string is a
//! document is what the `der` crate decides when it reads one.

use vstd::prelude::*;

use ::der::Decode;

use crate::der::DER_MAX_LEN;

verus! {

/// Whether `der::Document::from_der` accepts `bytes`: one complete element
/// whose tag and length the `der` crate reads, and nothing after it.
pub uninterp spec fn der_document_accepts(bytes: Seq<u8>) -> bool;

/// Whether `der::Document::try_from` accepts `bytes` as an owned document:
/// one complete SEQUENCE element and nothing after it.
pub uninterp spec fn der_sequence_document_accepts(bytes: Seq<u8>) -> bool;

/// Whether `der` reads `bytes` as one OBJECT IDENTIFIER element, with
/// contents that `const-oid` accepts, and nothing after it.
pub uninterp spec fn der_oid_accepts(bytes: Seq<u8>) -> bool;

/// Calls `der::asn1::ObjectIdentifier::from_der` on `bytes`. Claimed: it
/// succeeds exactly when the named predicate holds of `bytes`.
#[verifier::external_body]
pub(crate) fn read_oid(bytes: &[u8]) -> (r: bool)
    ensures
        r == der_oid_accepts(bytes@),
{
    ::der::asn1::ObjectIdentifier::from_der(bytes).is_ok()
}

/// Calls `der::Document::from_der` on `bytes`; on failure, the `Debug` text
/// of the `der` error. Claimed: it succeeds exactly when the named
/// predicate holds of `bytes`; nothing is claimed of the text.
#[verifier::external_body]
pub(crate) fn read_document(bytes: &[u8]) -> (r: Result<(), String>)
    ensures
        r is Ok <==> der_document_accepts(bytes@),
{
    match ::der::Document::from_der(bytes) {
        Ok(_) => Ok(()),
        Err(e) => Err(format!("{:?}", e)),
    }
}

/// Calls `der::Document::try_from` on a copy of `bytes`. Claimed: it
/// succeeds exactly when the named predicate holds of `bytes`.
#[verifier::external_body]
pub(crate) fn read_sequence_document(bytes: &[u8]) -> (r: bool)
    ensures
        r == der_sequence_document_accepts(bytes@),
{
    ::der::Document::try_from(bytes.to_vec()).is_ok()
}

/// Calls `der::asn1::OctetStringRef::new` on `bytes`; on failure, the
/// `Debug` text of the `der` error. Claimed: it succeeds exactly when the
/// length fits the `der` crate's limit, [`DER_MAX_LEN`]; nothing is claimed
/// of the text.
#[verifier::external_body]
pub(crate) fn octet_string_check(bytes: &[u8]) -> (r: Result<(), String>)
    ensures
        r is Ok <==> bytes@.len() <= DER_MAX_LEN,
{
    match ::der::asn1::OctetStringRef::new(bytes) {
        Ok(_) => Ok(()),
        Err(e) => Err(format!("{:?}", e)),
    }
}

/// The `Debug` text of the error that the `der` crate gives when a length
/// exceeds its limit: `der::ErrorKind::Overflow` converted into
/// `der::Error`. Nothing is claimed of the text.
#[verifier::external_body]
pub(crate) fn length_overflow_text() -> String {
    format!("{:?}", ::der::Error::from(::der::ErrorKind::Overflow))
}

/// Checks that every one of `certs` is a document to `der`.
pub fn all_documents(certs: &Vec<Vec<u8>>) -> (r: bool)
    ensures
        r == forall|i: int| 0 <= i < certs@.len() ==> der_document_accepts(#[trigger] certs@[i]@),
{
    let mut i: usize = 0;
    while i < certs.len()
        invariant
            i <= certs@.len(),
            forall|j: int| 0 <= j < i ==> der_document_accepts(#[trigger] certs@[j]@),
        decreases certs@.len() - i,
    {
        if read_document(certs[i].as_slice()).is_err() {
            return false;
        }
        i = i + 1;
    }
    true
}

} // verus!
