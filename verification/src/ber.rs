//! Definite lengths in their BER forms: the long form may be used for any
//! length and may carry leading zero bytes, as BER readers accept.

use vstd::prelude::*;

use crate::der::{be_bytes, be_value, length_bytes, lemma_be_len_bound, lemma_be_roundtrip, lemma_pow256_8, lemma_split, tlv};

verus! {

/// The length that the octets `lb` denote in BER definite form: one byte
/// below 0x80, or `0x80 + k` (k from 1 to 126) followed by `k` big-endian
/// bytes, leading zeros allowed.
pub open spec fn ber_length_value(lb: Seq<u8>) -> Option<nat> {
    if lb.len() == 1 && lb[0] < 0x80 {
        Some(lb[0] as nat)
    } else if lb.len() >= 2 && 0x81 <= lb[0] && lb[0] <= 0xfe && lb.len() == lb[0] - 0x80 + 1 {
        Some(be_value(lb.skip(1)))
    } else {
        None
    }
}

/// `lb` is a BER definite length octet string for `n`.
pub open spec fn ber_length_of(lb: Seq<u8>, n: nat) -> bool {
    ber_length_value(lb) == Some(n)
}

/// An element with tag byte `tag`, length octets `lb` and contents `c`.
pub open spec fn ber_tlv(tag: u8, lb: Seq<u8>, c: Seq<u8>) -> Seq<u8> {
    seq![tag] + lb + c
}

/// The DER length octets of `n` are one of its BER forms, so a DER
/// element is a BER element with the same contents.
pub proof fn lemma_der_length_is_ber(tag: u8, c: Seq<u8>)
    requires
        c.len() <= usize::MAX,
    ensures
        ber_length_of(length_bytes(c.len()), c.len()),
        tlv(tag, c) == ber_tlv(tag, length_bytes(c.len()), c),
{
    let n = c.len();
    if n >= 128 {
        lemma_be_roundtrip(n);
        lemma_be_len_bound(n, 8);
        lemma_pow256_8();
        let lb = length_bytes(n);
        assert(lb.skip(1) =~= be_bytes(n));
    }
}

/// A prefix of big-endian bytes denotes no more than the whole.
proof fn lemma_be_prefix_le(s: Seq<u8>, j: int)
    requires
        0 <= j <= s.len(),
    ensures
        be_value(s.subrange(0, j)) <= be_value(s),
    decreases s.len(),
{
    if j < s.len() {
        assert(s.drop_last() =~= s.subrange(0, s.len() - 1));
        assert(s.subrange(0, s.len() - 1).subrange(0, j) =~= s.subrange(0, j));
        lemma_be_prefix_le(s.drop_last(), j);
    } else {
        assert(s.subrange(0, j) =~= s);
    }
}

/// Reads BER definite length octets at `pos`: the length, and the position
/// after the octets. Fails unless the contents that follow fit in `b`.
pub fn read_ber_length(b: &[u8], pos: usize) -> (r: Option<(usize, usize)>)
    requires
        pos < b@.len(),
    ensures
        r matches Some((n, q)) ==> pos < q <= b@.len() && q + n <= b@.len() && ber_length_of(
            b@.subrange(pos as int, q as int),
            n as nat,
        ),
        forall|lb: Seq<u8>, n: nat|
            #[trigger] ber_length_of(lb, n) && pos + lb.len() + n <= b@.len() && b@.subrange(
                pos as int,
                pos + lb.len(),
            ) == lb ==> r == Some((n as usize, (pos + lb.len()) as usize)),
{
    let len = b.len();
    let b0 = b[pos];
    if b0 < 0x80 {
        proof {
            assert forall|lb: Seq<u8>, n: nat|
                #[trigger] ber_length_of(lb, n) && pos + lb.len() + n <= b@.len() && b@.subrange(
                    pos as int,
                    pos + lb.len(),
                ) == lb implies lb.len() == 1 && n == b0 by {
                assert(lb[0] == b@.subrange(pos as int, pos + lb.len())[0]);
            }
        }
        if b0 as usize > len - pos - 1 {
            return None;
        }
        proof {
            assert(b@.subrange(pos as int, pos + 1) =~= seq![b0]);
        }
        return Some((b0 as usize, pos + 1));
    }
    if b0 == 0x80 || b0 == 0xff {
        proof {
            assert forall|lb: Seq<u8>, n: nat|
                #[trigger] ber_length_of(lb, n) && pos + lb.len() + n <= b@.len() && b@.subrange(
                    pos as int,
                    pos + lb.len(),
                ) == lb implies false by {
                assert(lb[0] == b@.subrange(pos as int, pos + lb.len())[0]);
            }
        }
        return None;
    }
    let k = (b0 - 0x80) as usize;
    if k > len - pos - 1 {
        proof {
            assert forall|lb: Seq<u8>, n: nat|
                #[trigger] ber_length_of(lb, n) && pos + lb.len() + n <= b@.len() && b@.subrange(
                    pos as int,
                    pos + lb.len(),
                ) == lb implies false by {
                assert(lb[0] == b@.subrange(pos as int, pos + lb.len())[0]);
            }
        }
        return None;
    }
    let ghost digits = b@.subrange(pos + 1, pos + 1 + k);
    let mut v: usize = 0;
    let mut i: usize = 0;
    while i < k
        invariant
            k <= len - pos - 1,
            b0 == b@[pos as int],
            0x81 <= b0 <= 0xfe,
            k == b0 - 0x80,
            len == b@.len(),
            pos < len,
            digits == b@.subrange(pos + 1, pos + 1 + k),
            i <= k,
            v <= len,
            v == be_value(digits.subrange(0, i as int)),
        decreases k - i,
    {
        let d = b[pos + 1 + i];
        assert(digits.subrange(0, i + 1).drop_last() =~= digits.subrange(0, i as int));
        assert(digits.subrange(0, i + 1).last() == d);
        if v > len / 256 || d as usize > len - v * 256 {
            proof {
                if v > len / 256 {
                    assert(v * 256 + d > len) by (nonlinear_arith)
                        requires
                            v > len / 256,
                    ;
                }
                lemma_be_prefix_le(digits, i + 1);
                assert forall|lb: Seq<u8>, n: nat|
                    #[trigger] ber_length_of(lb, n) && pos + lb.len() + n <= b@.len() && b@.subrange(
                        pos as int,
                        pos + lb.len(),
                    ) == lb implies false by {
                    assert(lb[0] == b@.subrange(pos as int, pos + lb.len())[0]);
                    assert(lb.len() == k + 1);
                    assert(lb.skip(1) =~= digits);
                }
            }
            return None;
        }
        assert(v * 256 <= len) by (nonlinear_arith)
            requires
                v <= len / 256,
        ;
        v = v * 256 + d as usize;
        i = i + 1;
    }
    assert(digits.subrange(0, k as int) =~= digits);
    let q = pos + 1 + k;
    proof {
        let lb0 = b@.subrange(pos as int, q as int);
        assert(lb0.skip(1) =~= digits);
        assert(lb0[0] == b0);
        assert forall|lb: Seq<u8>, n: nat|
            #[trigger] ber_length_of(lb, n) && pos + lb.len() + n <= b@.len() && b@.subrange(
                pos as int,
                pos + lb.len(),
            ) == lb implies lb == lb0 && n == v by {
            assert(lb[0] == b@.subrange(pos as int, pos + lb.len())[0]);
            assert(lb.len() == k + 1);
            assert(lb.skip(1) =~= digits);
        }
    }
    if v > len - q {
        return None;
    }
    Some((v, q))
}

/// Reads the element at `pos`, which must carry the tag byte `tag`, with a
/// BER definite length: the start and end of its contents.
pub fn expect_ber_tlv(b: &[u8], pos: usize, tag: u8) -> (r: Option<(usize, usize)>)
    ensures
        r matches Some((s, e)) ==> {
            &&& pos < s <= e <= b@.len()
            &&& ber_length_of(b@.subrange(pos + 1, s as int), (e - s) as nat)
            &&& b@.subrange(pos as int, e as int) == ber_tlv(
                tag,
                b@.subrange(pos + 1, s as int),
                b@.subrange(s as int, e as int),
            )
        },
        forall|lb: Seq<u8>, c: Seq<u8>|
            ber_length_of(lb, c.len()) && pos + 1 + lb.len() + c.len() <= b@.len() && #[trigger] b@.subrange(
                pos as int,
                pos + 1 + lb.len() + c.len(),
            ) == ber_tlv(tag, lb, c) ==> r == Some(((pos + 1 + lb.len()) as usize, (pos + 1 + lb.len() + c.len()) as usize)),
{
    if pos >= b.len() || pos + 1 >= b.len() || b[pos] != tag {
        proof {
            assert forall|lb: Seq<u8>, c: Seq<u8>|
                ber_length_of(lb, c.len()) && pos + 1 + lb.len() + c.len() <= b@.len() && #[trigger] b@.subrange(
                    pos as int,
                    pos + 1 + lb.len() + c.len(),
                ) == ber_tlv(tag, lb, c) implies false by {
                assert(ber_tlv(tag, lb, c)[0] == tag);
                assert(lb.len() >= 1);
            }
        }
        return None;
    }
    match read_ber_length(b, pos + 1) {
        None => {
            proof {
                assert forall|lb: Seq<u8>, c: Seq<u8>|
                    ber_length_of(lb, c.len()) && pos + 1 + lb.len() + c.len() <= b@.len() && #[trigger] b@.subrange(
                        pos as int,
                        pos + 1 + lb.len() + c.len(),
                    ) == ber_tlv(tag, lb, c) implies false by {
                    let t = b@.subrange(pos as int, pos + 1 + lb.len() + c.len());
                    assert(b@.subrange(pos + 1, pos + 1 + lb.len()) =~= t.subrange(1, 1 + lb.len() as int));
                    assert(t.subrange(1, 1 + lb.len() as int) =~= lb);
                }
            }
            None
        },
        Some((n, s)) => {
            let e = s + n;
            proof {
                assert(b@.subrange(pos as int, e as int) =~= ber_tlv(
                    tag,
                    b@.subrange(pos + 1, s as int),
                    b@.subrange(s as int, e as int),
                ));
                assert forall|lb: Seq<u8>, c: Seq<u8>|
                    ber_length_of(lb, c.len()) && pos + 1 + lb.len() + c.len() <= b@.len() && #[trigger] b@.subrange(
                        pos as int,
                        pos + 1 + lb.len() + c.len(),
                    ) == ber_tlv(tag, lb, c) implies s == pos + 1 + lb.len() && n == c.len() by {
                    let t = b@.subrange(pos as int, pos + 1 + lb.len() + c.len());
                    assert(b@.subrange(pos + 1, pos + 1 + lb.len()) =~= t.subrange(1, 1 + lb.len() as int));
                    assert(t.subrange(1, 1 + lb.len() as int) =~= lb);
                }
            }
            Some((s, e))
        },
    }
}

/// The contents of an element with tag byte `tag` and length octets `lb`
/// start after its header.
pub proof fn lemma_ber_tlv_content(b: Seq<u8>, pos: int, tag: u8, lb: Seq<u8>, c: Seq<u8>)
    requires
        0 <= pos,
        pos + ber_tlv(tag, lb, c).len() <= b.len(),
        b.subrange(pos, pos + ber_tlv(tag, lb, c).len()) == ber_tlv(tag, lb, c),
    ensures
        b.subrange(pos + 1 + lb.len(), pos + ber_tlv(tag, lb, c).len()) == c,
        b[pos] == tag,
        b.subrange(pos + 1, pos + 1 + lb.len()) == lb,
{
    lemma_split(b, pos, pos + ber_tlv(tag, lb, c).len(), seq![tag] + lb, c);
    lemma_split(b, pos, pos + 1 + lb.len(), seq![tag], lb);
    assert(b[pos] == b.subrange(pos, pos + 1)[0]);
}

/// Reads the element with tag byte `tag` and a BER definite length that
/// starts `b[pos..end]`: the start and end of its contents.
pub fn read_ber_prefixed(b: &[u8], pos: usize, end: usize, tag: u8) -> (r: Option<(usize, usize)>)
    requires
        pos <= end <= b@.len(),
    ensures
        r matches Some((s, e)) ==> {
            &&& pos < s <= e <= end
            &&& ber_length_of(b@.subrange(pos + 1, s as int), (e - s) as nat)
            &&& b@.subrange(pos as int, e as int) == ber_tlv(
                tag,
                b@.subrange(pos + 1, s as int),
                b@.subrange(s as int, e as int),
            )
        },
        forall|lb: Seq<u8>, c: Seq<u8>, rest: Seq<u8>|
            #[trigger] ber_length_of(lb, c.len()) && #[trigger] (ber_tlv(tag, lb, c) + rest) == b@.subrange(
                pos as int,
                end as int,
            ) ==> r == Some(((pos + 1 + lb.len()) as usize, (pos + 1 + lb.len() + c.len()) as usize)),
{
    let sub = vstd::slice::slice_subrange(b, 0, end);
    let r = expect_ber_tlv(sub, pos, tag);
    proof {
        assert forall|lb: Seq<u8>, c: Seq<u8>, rest: Seq<u8>|
            #[trigger] ber_length_of(lb, c.len()) && #[trigger] (ber_tlv(tag, lb, c) + rest) == b@.subrange(
                pos as int,
                end as int,
            ) implies r == Some(((pos + 1 + lb.len()) as usize, (pos + 1 + lb.len() + c.len()) as usize)) by {
            lemma_split(b@, pos as int, end as int, ber_tlv(tag, lb, c), rest);
            assert(sub@.subrange(pos as int, pos + 1 + lb.len() + c.len()) =~= b@.subrange(
                pos as int,
                pos + ber_tlv(tag, lb, c).len(),
            ));
        }
        if let Some((s, e)) = r {
            assert(sub@.subrange(pos as int, e as int) =~= b@.subrange(pos as int, e as int));
            assert(sub@.subrange(s as int, e as int) =~= b@.subrange(s as int, e as int));
            assert(sub@.subrange(pos + 1, s as int) =~= b@.subrange(pos + 1, s as int));
        }
    }
    r
}

/// A constructed element with tag byte `tag`, length octets `lb` and
/// contents `c`: in definite form, or, where `lb` is the single octet 0x80,
/// in indefinite form, its contents closed by two zero octets.
pub open spec fn ber_constructed(tag: u8, lb: Seq<u8>, c: Seq<u8>) -> Seq<u8> {
    if lb == seq![0x80u8] {
        seq![tag] + lb + c + seq![0u8, 0u8]
    } else {
        ber_tlv(tag, lb, c)
    }
}

/// `lb` frames `c` in a constructed element: the indefinite form, or a
/// definite length of `c`.
pub open spec fn ber_constructed_length(lb: Seq<u8>, c: Seq<u8>) -> bool {
    lb == seq![0x80u8] || ber_length_of(lb, c.len())
}

/// Reads the constructed element with tag byte `tag` that spans the whole
/// of `b`, in definite or indefinite form: the start and end of its
/// contents.
pub fn expect_ber_constructed_whole(b: &[u8], tag: u8) -> (r: Option<(usize, usize)>)
    ensures
        r matches Some((s, e)) ==> {
            &&& 0 < s <= e <= b@.len()
            &&& ber_constructed_length(b@.subrange(1, s as int), b@.subrange(s as int, e as int))
            &&& ber_constructed(tag, b@.subrange(1, s as int), b@.subrange(s as int, e as int)) == b@
        },
        forall|lb: Seq<u8>, c: Seq<u8>|
            ber_constructed_length(lb, c) && #[trigger] ber_constructed(tag, lb, c) == b@ ==> r == Some(
                ((1 + lb.len()) as usize, (1 + lb.len() + c.len()) as usize),
            ),
{
    let ghost bs = b@;
    let blen = b.len();
    assert(bs.subrange(0, bs.len() as int) =~= bs);
    if blen >= 4 && b[0] == tag && b[1] == 0x80 {
        if b[blen - 2] == 0 && b[blen - 1] == 0 {
            proof {
                let lb0 = bs.subrange(1, 2);
                assert(lb0 =~= seq![0x80u8]);
                assert(ber_constructed(tag, lb0, bs.subrange(2, blen - 2)) =~= bs);
                assert forall|lb: Seq<u8>, c: Seq<u8>|
                    ber_constructed_length(lb, c) && #[trigger] ber_constructed(tag, lb, c) == b@ implies lb
                        == seq![0x80u8] && c == bs.subrange(2, blen - 2) by {
                    if lb != seq![0x80u8] {
                        assert(ber_tlv(tag, lb, c)[1] == lb[0]);
                    }
                    assert(bs.subrange(2, blen - 2) =~= c);
                }
            }
            return Some((2, blen - 2));
        }
        proof {
            assert forall|lb: Seq<u8>, c: Seq<u8>|
                ber_constructed_length(lb, c) && #[trigger] ber_constructed(tag, lb, c) == b@ implies false by {
                if lb != seq![0x80u8] {
                    assert(ber_tlv(tag, lb, c)[1] == lb[0]);
                } else {
                    let w = seq![tag] + lb + c + seq![0u8, 0u8];
                    assert(w[w.len() - 2] == 0u8 && w[w.len() - 1] == 0u8);
                }
            }
        }
        return None;
    }
    proof {
        assert forall|lb: Seq<u8>, c: Seq<u8>|
            ber_constructed_length(lb, c) && #[trigger] ber_constructed(tag, lb, c) == b@ implies lb != seq![0x80u8] by {
            if lb == seq![0x80u8] {
                let w = seq![tag] + lb + c + seq![0u8, 0u8];
                assert(w[0] == tag && w[1] == 0x80u8);
            }
        }
    }
    match expect_ber_tlv(b, 0, tag) {
        Some((s, e)) => {
            if e == blen {
                proof {
                    assert(bs.subrange(0, e as int) =~= bs);
                    let lb0 = bs.subrange(1, s as int);
                    if lb0 == seq![0x80u8] {
                        assert(ber_length_of(lb0, (e - s) as nat));
                        assert(lb0[0] == 0x80u8);
                    }
                }
                Some((s, e))
            } else {
                None
            }
        },
        None => None,
    }
}

/// Reads the constructed element with tag byte `tag` that spans exactly
/// `b[pos..end]`, in definite or indefinite form: the start and end of its
/// contents.
pub fn read_ber_constructed_span(b: &[u8], pos: usize, end: usize, tag: u8) -> (r: Option<(usize, usize)>)
    requires
        pos <= end <= b@.len(),
    ensures
        r matches Some((s, e)) ==> {
            &&& pos < s <= e <= end
            &&& ber_constructed_length(b@.subrange(pos + 1, s as int), b@.subrange(s as int, e as int))
            &&& ber_constructed(tag, b@.subrange(pos + 1, s as int), b@.subrange(s as int, e as int))
                == b@.subrange(pos as int, end as int)
        },
        forall|lb: Seq<u8>, c: Seq<u8>|
            ber_constructed_length(lb, c) && #[trigger] ber_constructed(tag, lb, c) == b@.subrange(
                pos as int,
                end as int,
            ) ==> r == Some(((pos + 1 + lb.len()) as usize, (pos + 1 + lb.len() + c.len()) as usize)),
{
    let sub = vstd::slice::slice_subrange(b, pos, end);
    match expect_ber_constructed_whole(sub, tag) {
        Some((s, e)) => {
            proof {
                assert(sub@.subrange(1, s as int) =~= b@.subrange(pos + 1, pos + s));
                assert(sub@.subrange(s as int, e as int) =~= b@.subrange(pos + s, pos + e));
            }
            Some((pos + s, pos + e))
        },
        None => None,
    }
}

} // verus!
