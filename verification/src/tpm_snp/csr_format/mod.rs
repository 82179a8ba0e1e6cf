//! ASN.1 type definitions and their DER encodings.
//!
//! ```asn1
//! CoprocessorAttestationSetV1 ::= SET OF CoprocessorAttestationV1
//! CoprocessorAttestationV1 ::= SEQUENCE {
//!     coprocessor-type         OBJECT IDENTIFIER,
//!     data                     SEQUENCE OF OCTET STRING
//! }
//! ```

pub mod baremetal_snp;
pub mod decode;
pub mod read;
pub mod vtpm;

use vstd::prelude::*;

use crate::der::{
    clone_all, copy_range, concat_all, lemma_lex_irreflexive, lemma_lex_total, lemma_lex_transitive, lex_less, lex_lt,
    push_tlv, tlv, views, Asn1Error, DER_MAX_LEN,
};

verus! {

/// The OCTET STRING elements of `data`.
pub open spec fn octet_strings(data: Seq<Seq<u8>>) -> Seq<Seq<u8>> {
    data.map_values(|d: Seq<u8>| tlv(0x04, d))
}

/// The DER encoding of a coprocessor attestation with type `oid` (the
/// contents of its OBJECT IDENTIFIER) and data `data`.
pub open spec fn coprocessor_der(oid: Seq<u8>, data: Seq<Seq<u8>>) -> Seq<u8> {
    tlv(0x30, tlv(0x06, oid) + tlv(0x30, concat_all(octet_strings(data))))
}

/// The attestation of one coprocessor: its type, named by an OID child of
/// 1.3.6.1.4.1.49690.2.2.11, and data defined by that type.
#[derive(Debug)]
pub struct CoprocessorAttestationV1 {
    /// The contents of the OBJECT IDENTIFIER.
    pub coprocessor_type: Vec<u8>,
    pub data: Vec<Vec<u8>>,
}

/// A coprocessor attestation as values: (type OID contents, data).
pub type CoprocessorModel = (Seq<u8>, Seq<Seq<u8>>);

impl Clone for CoprocessorAttestationV1 {
    fn clone(&self) -> (r: Self)
        ensures
            r.model() == self.model(),
    {
        CoprocessorAttestationV1 {
            coprocessor_type: copy_range(self.coprocessor_type.as_slice(), 0, self.coprocessor_type.len()),
            data: clone_all(&self.data),
        }
    }
}

impl CoprocessorAttestationV1 {
    pub open spec fn model(&self) -> CoprocessorModel {
        (self.coprocessor_type@, views(self.data@))
    }

    /// The DER encoding.
    pub open spec fn der(&self) -> Seq<u8> {
        coprocessor_der(self.coprocessor_type@, views(self.data@))
    }

    /// The DER encoding, without the length limit of `to_der`.
    pub fn encode(&self) -> (out: Vec<u8>)
        ensures
            out@ == self.der(),
    {
        let mut strings: Vec<u8> = Vec::new();
        let mut i: usize = 0;
        while i < self.data.len()
            invariant
                i <= self.data@.len(),
                strings@ == concat_all(octet_strings(views(self.data@.subrange(0, i as int)))),
            decreases self.data@.len() - i,
        {
            let ghost before = octet_strings(views(self.data@.subrange(0, i as int)));
            push_tlv(&mut strings, 0x04, self.data[i].as_slice());
            proof {
                crate::der::lemma_concat_push(before, tlv(0x04, self.data@[i as int]@));
                assert(octet_strings(views(self.data@.subrange(0, i + 1))) =~= before.push(
                    tlv(0x04, self.data@[i as int]@),
                ));
            }
            i = i + 1;
        }
        assert(self.data@.subrange(0, self.data@.len() as int) =~= self.data@);
        let mut inner: Vec<u8> = Vec::new();
        push_tlv(&mut inner, 0x06, self.coprocessor_type.as_slice());
        push_tlv(&mut inner, 0x30, strings.as_slice());
        let mut out: Vec<u8> = Vec::new();
        push_tlv(&mut out, 0x30, inner.as_slice());
        assert(out@ =~= self.der());
        out
    }

    /// The DER encoding; fails when it would exceed [`DER_MAX_LEN`] bytes.
    pub fn to_der(&self) -> (r: Result<Vec<u8>, Asn1Error>)
        ensures
            r is Ok <==> self.der().len() <= DER_MAX_LEN,
            r matches Ok(v) ==> v@ == self.der(),
    {
        let v = self.encode();
        if v.len() <= DER_MAX_LEN {
            Ok(v)
        } else {
            Err(Asn1Error)
        }
    }
}

/// The models of a sequence of coprocessor attestations.
pub open spec fn models(s: Seq<CoprocessorAttestationV1>) -> Seq<CoprocessorModel> {
    s.map_values(|c: CoprocessorAttestationV1| c.model())
}

/// The DER encoding of a coprocessor attestation model.
pub open spec fn model_der(m: CoprocessorModel) -> Seq<u8> {
    coprocessor_der(m.0, m.1)
}

/// No two attestations share a type, and no two have the same encoding.
pub open spec fn distinct_attestations(s: Seq<CoprocessorModel>) -> bool {
    forall|i: int, j: int|
        0 <= i < j < s.len() ==> s[i].0 != s[j].0 && model_der(s[i]) != model_der(s[j])
}

/// Strictly increasing in the order of their encodings.
pub open spec fn sorted_by_der(s: Seq<CoprocessorModel>) -> bool {
    forall|i: int, j: int| 0 <= i < j < s.len() ==> lex_lt(model_der(s[i]), model_der(s[j]))
}

/// The encodings of a sequence of attestation models.
pub open spec fn encodings(s: Seq<CoprocessorModel>) -> Seq<Seq<u8>> {
    s.map_values(|m: CoprocessorModel| model_der(m))
}

/// The DER encoding of a SET OF coprocessor attestations, in the given
/// order.
pub open spec fn set_der(s: Seq<CoprocessorModel>) -> Seq<u8> {
    tlv(0x31, concat_all(encodings(s)))
}

/// A set of coprocessor attestations: sorted by encoding, each type at most
/// once.
#[derive(Debug)]
pub struct CoprocessorAttestationSetV1 {
    elements: Vec<CoprocessorAttestationV1>,
}

impl CoprocessorAttestationSetV1 {
    #[verifier::type_invariant]
    spec fn set_inv(self) -> bool {
        &&& sorted_by_der(models(self.elements@))
        &&& distinct_attestations(models(self.elements@))
    }

    /// The attestations in set order.
    pub closed spec fn elements(self) -> Seq<CoprocessorModel> {
        models(self.elements@)
    }

    /// The empty set.
    pub fn new() -> (s: Self)
        ensures
            s.elements() == Seq::<CoprocessorModel>::empty(),
    {
        let s = CoprocessorAttestationSetV1 { elements: Vec::new() };
        assert(models(s.elements@) =~= Seq::<CoprocessorModel>::empty());
        s
    }

    /// The attestations in set order.
    pub fn as_slice(&self) -> (r: &[CoprocessorAttestationV1])
        ensures
            models(r@) == self.elements(),
            sorted_by_der(self.elements()),
            distinct_attestations(self.elements()),
    {
        proof {
            use_type_invariant(self);
        }
        self.elements.as_slice()
    }

    /// A copy of the set.
    pub fn duplicate(&self) -> (r: Self)
        ensures
            r.elements() == self.elements(),
    {
        proof {
            use_type_invariant(self);
        }
        let mut out: Vec<CoprocessorAttestationV1> = Vec::new();
        let mut i: usize = 0;
        while i < self.elements.len()
            invariant
                i <= self.elements@.len(),
                models(out@) == models(self.elements@).subrange(0, i as int),
            decreases self.elements@.len() - i,
        {
            let c = self.elements[i].clone();
            assert(c.model() == models(self.elements@)[i as int]);
            let ghost before = out@;
            out.push(c);
            assert(out@ == before.push(c));
            assert(models(out@) =~= models(before).push(c.model()));
            assert(models(out@) =~= models(self.elements@).subrange(0, i + 1));
            i = i + 1;
        }
        assert(models(self.elements@).subrange(0, self.elements@.len() as int) =~= models(self.elements@));
        CoprocessorAttestationSetV1 { elements: out }
    }

    /// The DER encoding, without the length limit of `to_der`.
    pub fn encode(&self) -> (out: Vec<u8>)
        ensures
            out@ == set_der(self.elements()),
    {
        let mut inner: Vec<u8> = Vec::new();
        let mut i: usize = 0;
        while i < self.elements.len()
            invariant
                i <= self.elements@.len(),
                inner@ == concat_all(encodings(models(self.elements@).subrange(0, i as int))),
            decreases self.elements@.len() - i,
        {
            let e = self.elements[i].encode();
            proof {
                let before = encodings(models(self.elements@).subrange(0, i as int));
                crate::der::lemma_concat_push(before, e@);
                assert(encodings(models(self.elements@).subrange(0, i + 1)) =~= before.push(e@));
            }
            crate::le::push_bytes(&mut inner, e.as_slice());
            i = i + 1;
        }
        assert(models(self.elements@).subrange(0, self.elements@.len() as int) =~= models(self.elements@));
        let mut out: Vec<u8> = Vec::new();
        push_tlv(&mut out, 0x31, inner.as_slice());
        assert(out@ =~= set_der(self.elements()));
        out
    }

    /// The DER encoding; fails when it would exceed [`DER_MAX_LEN`] bytes.
    pub fn to_der(&self) -> (r: Result<Vec<u8>, Asn1Error>)
        ensures
            r is Ok <==> set_der(self.elements()).len() <= DER_MAX_LEN,
            r matches Ok(v) ==> v@ == set_der(self.elements()),
    {
        let v = self.encode();
        if v.len() <= DER_MAX_LEN {
            Ok(v)
        } else {
            Err(Asn1Error)
        }
    }

    /// The number of attestations.
    pub fn len(&self) -> (n: usize)
        ensures
            n == self.elements().len(),
    {
        self.elements.len()
    }

    /// The set of the attestations in `v`, sorted by encoding. Fails when
    /// two of them have the same type or the same encoding.
    pub fn try_from(v: Vec<CoprocessorAttestationV1>) -> (r: Result<Self, Asn1Error>)
        ensures
            r is Ok <==> distinct_attestations(models(v@)),
            r matches Ok(s) ==> s.elements().to_multiset() == models(v@).to_multiset() && sorted_by_der(
                s.elements(),
            ),
    {
        let ghost input = models(v@);
        let ghost n = input.len();
        let mut rest = v;
        let mut out: Vec<CoprocessorAttestationV1> = Vec::new();
        proof {
            assert(models(out@) =~= Seq::<CoprocessorModel>::empty());
            assert(input.subrange(n as int, n as int) =~= Seq::<CoprocessorModel>::empty());
            assert(models(rest@) =~= input.subrange(0, n as int));
        }
        while rest.len() > 0
            invariant
                n == input.len(),
                input == models(v@),
                models(rest@) == input.subrange(0, rest@.len() as int),
                rest@.len() <= n,
                models(out@).to_multiset() == input.subrange(rest@.len() as int, n as int).to_multiset(),
                sorted_by_der(models(out@)),
                distinct_attestations(models(out@)),
                distinct_attestations(input.subrange(rest@.len() as int, n as int)),
            decreases rest@.len(),
        {
            let ghost lv = rest@.len() as int;
            let ghost before = rest@;
            let x = rest.pop().unwrap();
            let ghost i = lv - 1;
            proof {
                assert(before == rest@.push(x));
                assert(models(rest@) =~= input.subrange(0, i));
                assert(models(before)[i] == x.model());
                assert(input.subrange(0, lv)[i] == input[i]);
            }
            if let Some(k) = type_index(&out, &x.coprocessor_type) {
                proof {
                    lemma_duplicate_in_input(input, i, models(out@), k as int);
                }
                return Err(Asn1Error);
            }
            let ex = x.encode();
            let j = insertion_point(&out, &ex);
            if j < out.len() {
                let enc_j = out[j].encode();
                if !lex_less(ex.as_slice(), enc_j.as_slice()) {
                    proof {
                        if enc_j@ != ex@ {
                            lemma_lex_total(enc_j@, ex@);
                        }
                        assert(model_der(models(out@)[j as int]) == model_der(x.model()));
                        lemma_duplicate_in_input(input, i, models(out@), j as int);
                    }
                    return Err(Asn1Error);
                }
            }
            let ghost old_out = models(out@);
            out.insert(j, x);
            proof {
                assert(models(out@) =~= old_out.insert(j as int, x.model()));
                lemma_insert_sorted(old_out, j as int, x.model());
                lemma_insert_distinct(old_out, j as int, x.model());
                lemma_extend_suffix(input, i, old_out);
            }
        }
        proof {
            assert(input.subrange(0, n as int) =~= input);
        }
        Ok(CoprocessorAttestationSetV1 { elements: out })
    }
}

/// The index of an attestation in `out` whose type is `t`, if there is one.
fn type_index(out: &Vec<CoprocessorAttestationV1>, t: &Vec<u8>) -> (r: Option<usize>)
    ensures
        r matches Some(k) ==> k < out@.len() && models(out@)[k as int].0 == t@,
        r is None ==> forall|m: int| 0 <= m < out@.len() ==> (#[trigger] models(out@)[m]).0 != t@,
{
    let mut k: usize = 0;
    while k < out.len()
        invariant
            k <= out@.len(),
            forall|m: int| 0 <= m < k ==> (#[trigger] models(out@)[m]).0 != t@,
        decreases out@.len() - k,
    {
        if crate::der::slices_equal(out[k].coprocessor_type.as_slice(), t.as_slice()) {
            return Some(k);
        }
        k = k + 1;
    }
    None
}

/// The number of leading attestations of `out` whose encodings come before
/// `ex`.
fn insertion_point(out: &Vec<CoprocessorAttestationV1>, ex: &Vec<u8>) -> (j: usize)
    ensures
        j <= out@.len(),
        forall|m: int| 0 <= m < j ==> lex_lt(model_der(#[trigger] models(out@)[m]), ex@),
        j < out@.len() ==> !lex_lt(model_der(models(out@)[j as int]), ex@),
{
    let mut j: usize = 0;
    while j < out.len()
        invariant
            j <= out@.len(),
            forall|m: int| 0 <= m < j ==> lex_lt(model_der(#[trigger] models(out@)[m]), ex@),
        decreases out@.len() - j,
    {
        let enc_j = out[j].encode();
        if !lex_less(enc_j.as_slice(), ex.as_slice()) {
            return j;
        }
        j = j + 1;
    }
    j
}

/// An attestation `input[i]` that shares its type or encoding with one of
/// the attestations processed after it breaks distinctness.
proof fn lemma_duplicate_in_input(input: Seq<CoprocessorModel>, i: int, outm: Seq<CoprocessorModel>, k: int)
    requires
        0 <= i < input.len(),
        0 <= k < outm.len(),
        outm.to_multiset() == input.subrange(i + 1, input.len() as int).to_multiset(),
        outm[k].0 == input[i].0 || model_der(outm[k]) == model_der(input[i]),
    ensures
        !distinct_attestations(input),
{
    broadcast use vstd::seq_lib::to_multiset_contains;

    let suffix = input.subrange(i + 1, input.len() as int);
    assert(outm.contains(outm[k]));
    assert(outm.to_multiset().contains(outm[k]));
    assert(suffix.contains(outm[k]));
    let t = choose|t: int| 0 <= t < suffix.len() && suffix[t] == outm[k];
    assert(input[i + 1 + t] == outm[k]);
}

/// Inserting at a position between smaller and larger encodings keeps a
/// sequence sorted.
proof fn lemma_insert_sorted(s: Seq<CoprocessorModel>, j: int, xm: CoprocessorModel)
    requires
        0 <= j <= s.len(),
        sorted_by_der(s),
        forall|m: int| 0 <= m < j ==> lex_lt(model_der(#[trigger] s[m]), model_der(xm)),
        j < s.len() ==> lex_lt(model_der(xm), model_der(s[j])),
    ensures
        sorted_by_der(s.insert(j, xm)),
{
    let t = s.insert(j, xm);
    assert forall|a: int, b: int| 0 <= a < b < t.len() implies lex_lt(model_der(t[a]), model_der(t[b])) by {
        if a < j && b < j {
        } else if a < j && b == j {
        } else if a < j && b > j {
            assert(t[b] == s[b - 1]);
        } else if a == j {
            assert(t[b] == s[b - 1]);
            if b - 1 > j {
                lemma_lex_transitive(model_der(xm), model_der(s[j]), model_der(s[b - 1]));
            }
        } else {
            assert(t[a] == s[a - 1] && t[b] == s[b - 1]);
        }
    }
}

/// An attestation whose type and encoding differ from all of a distinct
/// sequence keeps it distinct when inserted.
proof fn lemma_insert_distinct(s: Seq<CoprocessorModel>, j: int, xm: CoprocessorModel)
    requires
        0 <= j <= s.len(),
        sorted_by_der(s),
        distinct_attestations(s),
        forall|m: int| 0 <= m < s.len() ==> (#[trigger] s[m]).0 != xm.0,
        forall|m: int| 0 <= m < j ==> lex_lt(model_der(#[trigger] s[m]), model_der(xm)),
        j < s.len() ==> lex_lt(model_der(xm), model_der(s[j])),
    ensures
        distinct_attestations(s.insert(j, xm)),
{
    let t = s.insert(j, xm);
    assert forall|a: int, b: int| 0 <= a < b < t.len() implies t[a].0 != t[b].0 && model_der(t[a])
        != model_der(t[b]) by {
        if a == j {
            assert(t[b] == s[b - 1]);
            if b - 1 > j {
                lemma_lex_transitive(model_der(xm), model_der(s[j]), model_der(s[b - 1]));
            }
            lemma_lex_irreflexive(model_der(xm), model_der(s[b - 1]));
        } else if b == j {
            assert(t[a] == s[a]);
            lemma_lex_irreflexive(model_der(s[a]), model_der(xm));
        } else {
            let a2 = if a < j { a } else { a - 1 };
            let b2 = if b < j { b } else { b - 1 };
            assert(t[a] == s[a2] && t[b] == s[b2]);
        }
    }
}

/// Taking one more attestation into the processed suffix keeps the multiset
/// of the output equal to that of the suffix, and the suffix distinct.
proof fn lemma_extend_suffix(input: Seq<CoprocessorModel>, i: int, old_out: Seq<CoprocessorModel>)
    requires
        0 <= i < input.len(),
        old_out.to_multiset() == input.subrange(i + 1, input.len() as int).to_multiset(),
        distinct_attestations(input.subrange(i + 1, input.len() as int)),
        forall|m: int| 0 <= m < old_out.len() ==> (#[trigger] old_out[m]).0 != input[i].0,
        forall|m: int|
            0 <= m < old_out.len() ==> model_der(#[trigger] old_out[m]) != model_der(input[i]),
    ensures
        forall|j: int|
            0 <= j <= old_out.len() ==> (#[trigger] old_out.insert(j, input[i])).to_multiset()
                == input.subrange(i, input.len() as int).to_multiset(),
        distinct_attestations(input.subrange(i, input.len() as int)),
{
    broadcast use {vstd::seq_lib::to_multiset_insert, vstd::seq_lib::to_multiset_contains};

    let suffix = input.subrange(i + 1, input.len() as int);
    let whole = input.subrange(i, input.len() as int);
    assert(whole =~= suffix.insert(0, input[i]));
    assert forall|j: int| 0 <= j <= old_out.len() implies (#[trigger] old_out.insert(j, input[i])).to_multiset()
        == whole.to_multiset() by {
        assert(old_out.insert(j, input[i]).to_multiset() == old_out.to_multiset().insert(input[i]));
        assert(whole.to_multiset() == suffix.to_multiset().insert(input[i]));
    }
    assert forall|a: int, b: int| 0 <= a < b < whole.len() implies whole[a].0 != whole[b].0 && model_der(
        whole[a],
    ) != model_der(whole[b]) by {
        if a == 0 {
            let y = whole[b];
            assert(y == suffix[b - 1]);
            assert(suffix.contains(y));
            assert(suffix.to_multiset().contains(y));
            assert(old_out.contains(y));
            let m = choose|m: int| 0 <= m < old_out.len() && old_out[m] == y;
            assert(old_out[m].0 != input[i].0);
        } else {
            assert(whole[a] == suffix[a - 1] && whole[b] == suffix[b - 1]);
        }
    }
}

} // verus!
