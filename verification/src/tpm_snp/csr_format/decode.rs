//! Reading coprocessor attestations and their sets back from DER.

use vstd::prelude::*;

use super::{
    coprocessor_der, distinct_attestations, encodings, model_der, models, octet_strings, set_der,
    sorted_by_der, CoprocessorAttestationSetV1, CoprocessorAttestationV1, CoprocessorModel,
};
use crate::der::{
    lemma_lex_irreflexive, all_elements, concat_all, copy_range, expect_tlv, is_element, lemma_pair_layout, lemma_split,
    lemma_tlv_content, lex_lt, read_elements, read_prefixed, tlv, views, Asn1Error,
};
use crate::document::{der_oid_accepts, read_oid};

verus! {

/// Every OCTET STRING element is a complete element.
pub proof fn lemma_octet_strings_are_elements(data: Seq<Seq<u8>>)
    ensures
        all_elements(octet_strings(data)),
{
    assert forall|i: int| 0 <= i < octet_strings(data).len() implies is_element(
        #[trigger] octet_strings(data)[i],
    ) by {
        let e = octet_strings(data)[i];
        assert(e == tlv(0x04, data[i]));
        assert(e[0] == 0x04u8);
    }
}

/// The contents of `elems`, each of which must be an OCTET STRING element.
pub(crate) fn octet_contents(elems: &Vec<Vec<u8>>) -> (r: Option<Vec<Vec<u8>>>)
    ensures
        r matches Some(v) ==> octet_strings(views(v@)) == views(elems@),
        forall|data: Seq<Seq<u8>>|
            #[trigger] octet_strings(data) == views(elems@) ==> (r matches Some(v) && views(v@) == data),
{
    let mut out: Vec<Vec<u8>> = Vec::new();
    let mut i: usize = 0;
    while i < elems.len()
        invariant
            i <= elems@.len(),
            octet_strings(views(out@)) == views(elems@).subrange(0, i as int),
            forall|data: Seq<Seq<u8>>|
                #[trigger] octet_strings(data) == views(elems@) ==> views(out@) == data.subrange(0, i as int),
        decreases elems@.len() - i,
    {
        let e = elems[i].as_slice();
        let ghost es = e@;
        assert(es == views(elems@)[i as int]);
        assert(es.subrange(0, es.len() as int) =~= es);
        let found = expect_tlv(e, 0, 0x04);
        match found {
            Some((s, en)) => {
                if en != e.len() {
                    proof {
                        assert forall|data: Seq<Seq<u8>>|
                            #[trigger] octet_strings(data) == views(elems@) implies false by {
                            assert(data.len() == views(elems@).len());
                            assert(octet_strings(data)[i as int] == tlv(0x04, data[i as int]));
                            assert(es.subrange(0, 0int + tlv(0x04, data[i as int]).len()) == tlv(
                                0x04,
                                data[i as int],
                            ));
                        }
                    }
                    return None;
                }
                let c = copy_range(e, s, en);
                proof {
                    assert(es == tlv(0x04, c@));
                    assert forall|data: Seq<Seq<u8>>|
                        #[trigger] octet_strings(data) == views(elems@) implies data[i as int] == c@ by {
                        assert(data.len() == views(elems@).len());
                        assert(octet_strings(data)[i as int] == tlv(0x04, data[i as int]));
                        assert(es.subrange(0, 0int + tlv(0x04, data[i as int]).len()) == tlv(
                            0x04,
                            data[i as int],
                        ));
                        lemma_tlv_content(es, 0, 0x04, data[i as int]);
                    }
                }
                let ghost before = out@;
                out.push(c);
                proof {
                    assert(out@ == before.push(c));
                    assert(views(out@) =~= views(before).push(c@));
                    assert(octet_strings(views(out@)) =~= octet_strings(views(before)).push(tlv(0x04, c@)));
                    assert(octet_strings(views(out@)) =~= views(elems@).subrange(0, i + 1));
                    assert forall|data: Seq<Seq<u8>>|
                        #[trigger] octet_strings(data) == views(elems@) implies views(out@) == data.subrange(
                        0,
                        i + 1,
                    ) by {
                        assert(data.len() == views(elems@).len());
                        assert(data.subrange(0, i + 1) =~= data.subrange(0, i as int).push(data[i as int]));
                    }
                }
            },
            None => {
                proof {
                    assert forall|data: Seq<Seq<u8>>|
                        #[trigger] octet_strings(data) == views(elems@) implies false by {
                        assert(data.len() == views(elems@).len());
                        assert(octet_strings(data)[i as int] == tlv(0x04, data[i as int]));
                        assert(es.subrange(0, 0int + tlv(0x04, data[i as int]).len()) == tlv(
                            0x04,
                            data[i as int],
                        ));
                    }
                }
                return None;
            },
        }
        i = i + 1;
    }
    proof {
        assert(views(elems@).subrange(0, elems@.len() as int) =~= views(elems@));
        assert forall|data: Seq<Seq<u8>>|
            #[trigger] octet_strings(data) == views(elems@) implies views(out@) == data by {
            assert(data.len() == views(elems@).len());
            assert(data.subrange(0, data.len() as int) =~= data);
        }
    }
    Some(out)
}

impl CoprocessorAttestationV1 {
    /// Reads one coprocessor attestation from the whole of `b`: a SEQUENCE
    /// of an OBJECT IDENTIFIER that `der` accepts and a SEQUENCE OF OCTET
    /// STRING.
    #[verifier::rlimit(60)]
    pub fn from_der(b: &[u8]) -> (r: Result<Self, Asn1Error>)
        ensures
            r matches Ok(c) ==> c.der() == b@ && der_oid_accepts(tlv(0x06, c.coprocessor_type@)),
            forall|oid: Seq<u8>, data: Seq<Seq<u8>>|
                der_oid_accepts(tlv(0x06, oid)) && #[trigger] coprocessor_der(oid, data) == b@ ==> (r matches Ok(
                    c,
                ) && c.model() == (oid, data)),
    {
        let ghost bs = b@;
        let blen = b.len();
        assert(bs.len() == blen);
        let (s0, e0) = match expect_tlv(b, 0, 0x30) {
            Some(p) => p,
            None => {
                proof {
                    assert forall|oid: Seq<u8>, data: Seq<Seq<u8>>|
                        der_oid_accepts(tlv(0x06, oid)) && #[trigger] coprocessor_der(oid, data) == b@ implies false by {
                        lemma_pair_layout(bs, 0x30, 0x06, oid, 0x30, concat_all(octet_strings(data)));
                    }
                }
                return Err(Asn1Error);
            },
        };
        if e0 != blen {
            proof {
                assert forall|oid: Seq<u8>, data: Seq<Seq<u8>>|
                    der_oid_accepts(tlv(0x06, oid)) && #[trigger] coprocessor_der(oid, data) == b@ implies false by {
                    lemma_pair_layout(bs, 0x30, 0x06, oid, 0x30, concat_all(octet_strings(data)));
                }
            }
            return Err(Asn1Error);
        }
        let (s1, e1) = match read_prefixed(b, s0, e0, 0x06) {
            Some(p) => p,
            None => {
                proof {
                    assert forall|oid: Seq<u8>, data: Seq<Seq<u8>>|
                        der_oid_accepts(tlv(0x06, oid)) && #[trigger] coprocessor_der(oid, data) == b@ implies false by {
                        lemma_pair_layout(bs, 0x30, 0x06, oid, 0x30, concat_all(octet_strings(data)));
                    }
                }
                return Err(Asn1Error);
            },
        };
        if !read_oid(vstd::slice::slice_subrange(b, s0, e1)) {
            proof {
                assert forall|oid: Seq<u8>, data: Seq<Seq<u8>>|
                    der_oid_accepts(tlv(0x06, oid)) && #[trigger] coprocessor_der(oid, data) == b@ implies false by {
                    let cat = concat_all(octet_strings(data));
                    lemma_pair_layout(bs, 0x30, 0x06, oid, 0x30, cat);
                    lemma_split(bs, s0 as int, e0 as int, tlv(0x06, oid), tlv(0x30, cat));
                }
            }
            return Err(Asn1Error);
        }
        let (s2, e2) = match read_prefixed(b, e1, e0, 0x30) {
            Some(p) => p,
            None => {
                proof {
                    assert forall|oid: Seq<u8>, data: Seq<Seq<u8>>|
                        der_oid_accepts(tlv(0x06, oid)) && #[trigger] coprocessor_der(oid, data) == b@ implies false by {
                        lemma_pair_layout(bs, 0x30, 0x06, oid, 0x30, concat_all(octet_strings(data)));
                    }
                }
                return Err(Asn1Error);
            },
        };
        if e2 != e0 {
            proof {
                assert forall|oid: Seq<u8>, data: Seq<Seq<u8>>|
                    der_oid_accepts(tlv(0x06, oid)) && #[trigger] coprocessor_der(oid, data) == b@ implies false by {
                    lemma_pair_layout(bs, 0x30, 0x06, oid, 0x30, concat_all(octet_strings(data)));
                }
            }
            return Err(Asn1Error);
        }
        let elems = match read_elements(b, s2, e2) {
            Some(v) => v,
            None => {
                proof {
                    assert forall|oid: Seq<u8>, data: Seq<Seq<u8>>|
                        der_oid_accepts(tlv(0x06, oid)) && #[trigger] coprocessor_der(oid, data) == b@ implies false by {
                        let cat = concat_all(octet_strings(data));
                        lemma_pair_layout(bs, 0x30, 0x06, oid, 0x30, cat);
                        lemma_tlv_content(bs, e1 as int, 0x30, cat);
                        lemma_octet_strings_are_elements(data);
                    }
                }
                return Err(Asn1Error);
            },
        };
        let data = match octet_contents(&elems) {
            Some(v) => v,
            None => {
                proof {
                    assert forall|oid: Seq<u8>, data: Seq<Seq<u8>>|
                        der_oid_accepts(tlv(0x06, oid)) && #[trigger] coprocessor_der(oid, data) == b@ implies false by {
                        let cat = concat_all(octet_strings(data));
                        lemma_pair_layout(bs, 0x30, 0x06, oid, 0x30, cat);
                        lemma_tlv_content(bs, e1 as int, 0x30, cat);
                        lemma_octet_strings_are_elements(data);
                    }
                }
                return Err(Asn1Error);
            },
        };
        let coprocessor_type = copy_range(b, s1, e1);
        let c = CoprocessorAttestationV1 { coprocessor_type, data };
        proof {
            assert(bs.subrange(s0 as int, e0 as int) =~= bs.subrange(s0 as int, e1 as int) + bs.subrange(
                e1 as int,
                e0 as int,
            ));
            assert(bs =~= bs.subrange(0, e0 as int));
            assert(c.der() == bs);
            assert forall|oid: Seq<u8>, d: Seq<Seq<u8>>|
                der_oid_accepts(tlv(0x06, oid)) && #[trigger] coprocessor_der(oid, d) == b@ implies c.model() == (
                oid,
                d,
            ) by {
                let cat = concat_all(octet_strings(d));
                lemma_pair_layout(bs, 0x30, 0x06, oid, 0x30, cat);
                lemma_split(bs, s0 as int, e0 as int, tlv(0x06, oid), tlv(0x30, cat));
                lemma_tlv_content(bs, s0 as int, 0x06, oid);
                lemma_tlv_content(bs, e1 as int, 0x30, cat);
                lemma_octet_strings_are_elements(d);
            }
        }
        Ok(c)
    }
}

/// Every OID of the attestations is one that `der` accepts.
pub open spec fn oids_accepted(ms: Seq<CoprocessorModel>) -> bool {
    forall|i: int| 0 <= i < ms.len() ==> der_oid_accepts(tlv(0x06, (#[trigger] ms[i]).0))
}

/// The encodings of coprocessor attestations are complete elements.
pub proof fn lemma_encodings_are_elements(ms: Seq<CoprocessorModel>)
    ensures
        all_elements(encodings(ms)),
{
    assert forall|i: int| 0 <= i < encodings(ms).len() implies is_element(#[trigger] encodings(ms)[i]) by {
        let e = encodings(ms)[i];
        assert(e == model_der(ms[i]));
        assert(e[0] == 0x30u8);
    }
}

/// Two sequences of attestations that are both strictly sorted by encoding
/// and hold the same attestations are the same sequence: a set has one
/// order.
pub proof fn lemma_sorted_unique(a: Seq<CoprocessorModel>, b: Seq<CoprocessorModel>)
    requires
        sorted_by_der(a),
        sorted_by_der(b),
        a.to_multiset() == b.to_multiset(),
    ensures
        a == b,
    decreases a.len(),
{
    vstd::seq_lib::to_multiset_len(a);
    vstd::seq_lib::to_multiset_len(b);
    if a.len() == 0 {
        assert(a =~= b);
    } else {
        let x = a[0];
        let y = b[0];
        vstd::seq_lib::to_multiset_contains(a, x);
        vstd::seq_lib::to_multiset_contains(b, x);
        vstd::seq_lib::to_multiset_contains(a, y);
        vstd::seq_lib::to_multiset_contains(b, y);
        assert(a.contains(x));
        assert(b.contains(y));
        let j = choose|j: int| 0 <= j < b.len() && b[j] == x;
        let k = choose|k: int| 0 <= k < a.len() && a[k] == y;
        if j > 0 && k > 0 {
            assert(lex_lt(model_der(y), model_der(x)));
            assert(lex_lt(model_der(x), model_der(y)));
            lemma_lex_irreflexive(model_der(x), model_der(y));
        }
        assert(x == y);
        vstd::seq_lib::to_multiset_remove(a, 0);
        vstd::seq_lib::to_multiset_remove(b, 0);
        assert(a.remove(0) =~= a.skip(1));
        assert(b.remove(0) =~= b.skip(1));
        lemma_sorted_unique(a.skip(1), b.skip(1));
        assert(a =~= b) by {
            assert forall|i: int| 0 <= i < a.len() implies a[i] == b[i] by {
                if i > 0 {
                    assert(a[i] == a.skip(1)[i - 1]);
                    assert(b[i] == b.skip(1)[i - 1]);
                }
            }
        }
    }
}

impl CoprocessorAttestationSetV1 {
    /// Reads a set from the whole of `b`: a SET OF coprocessor attestations,
    /// in any order, sorted as they are read; fails when two share a type or
    /// an encoding.
    #[verifier::rlimit(60)]
    pub fn from_der(b: &[u8]) -> (r: Result<Self, Asn1Error>)
        ensures
            r matches Ok(s) ==> exists|ms: Seq<CoprocessorModel>|
                oids_accepted(ms) && #[trigger] set_der(ms) == b@ && ms.to_multiset()
                    == s.elements().to_multiset(),
            forall|ms: Seq<CoprocessorModel>|
                oids_accepted(ms) && distinct_attestations(ms) && #[trigger] set_der(ms) == b@ ==> (r matches Ok(
                    s,
                ) && s.elements().to_multiset() == ms.to_multiset()),
            forall|ms: Seq<CoprocessorModel>|
                sorted_by_der(ms) && oids_accepted(ms) && distinct_attestations(ms) && #[trigger] set_der(ms)
                    == b@ ==> (r matches Ok(s) && s.elements() == ms),
    {
        let r = Self::read_set(b);
        proof {
            if r is Ok {
                let s = r->Ok_0;
                assert forall|ms: Seq<CoprocessorModel>|
                    sorted_by_der(ms) && oids_accepted(ms) && distinct_attestations(ms) && #[trigger] set_der(ms)
                        == b@ implies s.elements() == ms by {
                    lemma_sorted_unique(s.elements(), ms);
                }
            }
        }
        r
    }

    /// Reads a set from the whole of `b`, as [`Self::from_der`] does.
    #[verifier::rlimit(60)]
    fn read_set(b: &[u8]) -> (r: Result<Self, Asn1Error>)
        ensures
            r matches Ok(s) ==> exists|ms: Seq<CoprocessorModel>|
                oids_accepted(ms) && #[trigger] set_der(ms) == b@ && ms.to_multiset()
                    == s.elements().to_multiset(),
            forall|ms: Seq<CoprocessorModel>|
                oids_accepted(ms) && distinct_attestations(ms) && #[trigger] set_der(ms) == b@ ==> (r matches Ok(
                    s,
                ) && s.elements().to_multiset() == ms.to_multiset()),
            r matches Ok(s) ==> sorted_by_der(s.elements()),
    {
        let ghost bs = b@;
        let blen = b.len();
        assert(bs.len() == blen);
        let (s0, e0) = match expect_tlv(b, 0, 0x31) {
            Some(p) => p,
            None => {
                proof {
                    assert forall|ms: Seq<CoprocessorModel>|
                        oids_accepted(ms) && distinct_attestations(ms) && #[trigger] set_der(ms) == b@ implies false by {
                        assert(bs.subrange(0, 0int + set_der(ms).len()) =~= bs);
                    }
                }
                return Err(Asn1Error);
            },
        };
        if e0 != blen {
            proof {
                assert forall|ms: Seq<CoprocessorModel>|
                    oids_accepted(ms) && distinct_attestations(ms) && #[trigger] set_der(ms) == b@ implies false by {
                    assert(bs.subrange(0, 0int + set_der(ms).len()) =~= bs);
                }
            }
            return Err(Asn1Error);
        }
        let elems = match read_elements(b, s0, e0) {
            Some(v) => v,
            None => {
                proof {
                    assert forall|ms: Seq<CoprocessorModel>|
                        oids_accepted(ms) && distinct_attestations(ms) && #[trigger] set_der(ms) == b@ implies false by {
                        assert(bs.subrange(0, 0int + set_der(ms).len()) =~= bs);
                        lemma_tlv_content(bs, 0, 0x31, concat_all(encodings(ms)));
                        lemma_encodings_are_elements(ms);
                    }
                }
                return Err(Asn1Error);
            },
        };
        proof {
            assert forall|ms: Seq<CoprocessorModel>|
                oids_accepted(ms) && distinct_attestations(ms) && #[trigger] set_der(ms) == b@ implies encodings(ms)
                    == views(elems@) by {
                assert(bs.subrange(0, 0int + set_der(ms).len()) =~= bs);
                lemma_tlv_content(bs, 0, 0x31, concat_all(encodings(ms)));
                lemma_encodings_are_elements(ms);
            }
        }
        let mut list: Vec<CoprocessorAttestationV1> = Vec::new();
        let mut i: usize = 0;
        while i < elems.len()
            invariant
                i <= elems@.len(),
                encodings(models(list@)) == views(elems@).subrange(0, i as int),
                oids_accepted(models(list@)),
                forall|ms: Seq<CoprocessorModel>|
                    oids_accepted(ms) && distinct_attestations(ms) && #[trigger] set_der(ms) == b@ ==> encodings(ms)
                        == views(elems@),
                forall|ms: Seq<CoprocessorModel>|
                    oids_accepted(ms) && #[trigger] encodings(ms) == views(elems@) ==> models(list@) == ms.subrange(
                        0,
                        i as int,
                    ),
            decreases elems@.len() - i,
        {
            let c = match CoprocessorAttestationV1::from_der(elems[i].as_slice()) {
                Ok(c) => c,
                Err(e) => {
                    proof {
                        assert forall|ms: Seq<CoprocessorModel>|
                            oids_accepted(ms) && #[trigger] encodings(ms) == views(elems@) implies false by {
                            assert(ms.len() == views(elems@).len());
                            assert(encodings(ms)[i as int] == model_der(ms[i as int]));
                            assert(der_oid_accepts(tlv(0x06, ms[i as int].0)));
                        }
                    }
                    return Err(e);
                },
            };
            let ghost before = list@;
            list.push(c);
            proof {
                assert(list@ == before.push(c));
                assert(models(list@) =~= models(before).push(c.model()));
                assert(encodings(models(list@)) =~= encodings(models(before)).push(model_der(c.model())));
                assert(model_der(c.model()) == c.der());
                assert(encodings(models(list@)) =~= views(elems@).subrange(0, i + 1));
                assert forall|m: int| 0 <= m < models(list@).len() implies der_oid_accepts(
                    tlv(0x06, (#[trigger] models(list@)[m]).0),
                ) by {
                    if m < i {
                        assert(models(list@)[m] == models(before)[m]);
                    }
                }
                assert forall|ms: Seq<CoprocessorModel>|
                    oids_accepted(ms) && #[trigger] encodings(ms) == views(elems@) implies models(list@)
                        == ms.subrange(0, i + 1) by {
                    assert(ms.len() == views(elems@).len());
                    assert(encodings(ms)[i as int] == model_der(ms[i as int]));
                    assert(der_oid_accepts(tlv(0x06, ms[i as int].0)));
                    assert(ms.subrange(0, i + 1) =~= ms.subrange(0, i as int).push(ms[i as int]));
                }
            }
            i = i + 1;
        }
        proof {
            assert(views(elems@).subrange(0, elems@.len() as int) =~= views(elems@));
            assert(bs =~= bs.subrange(0, e0 as int));
            assert(set_der(models(list@)) == bs);
            assert forall|ms: Seq<CoprocessorModel>|
                oids_accepted(ms) && distinct_attestations(ms) && #[trigger] set_der(ms) == b@ implies models(
                    list@,
                ) == ms by {
                assert(encodings(ms) == views(elems@));
                assert(ms.subrange(0, ms.len() as int) =~= ms);
            }
        }
        let ghost lm = models(list@);
        let r = CoprocessorAttestationSetV1::try_from(list);
        proof {
            if r is Ok {
                assert(set_der(lm) == b@);
            }
        }
        r
    }
}

} // verus!
