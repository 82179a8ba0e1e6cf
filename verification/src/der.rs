//! Distinguished Encoding Rules (X.690) for the structures this crate
//! exchanges: tag-length-value framing with definite, minimal lengths and
//! single-byte tags.

use vstd::prelude::*;

verus! {

/// The minimal big-endian bytes of `n`; empty for zero.
pub open spec fn be_bytes(n: nat) -> Seq<u8>
    decreases n,
{
    if n == 0 {
        seq![]
    } else {
        be_bytes(n / 256).push((n % 256) as u8)
    }
}

/// The number that big-endian bytes `s` denote.
pub open spec fn be_value(s: Seq<u8>) -> nat
    decreases s.len(),
{
    if s.len() == 0 {
        0
    } else {
        be_value(s.drop_last()) * 256 + (s.last() as nat)
    }
}

/// The DER encoding of a length: one byte below 128, else `0x80 + k`
/// followed by the `k` minimal big-endian bytes of the length.
pub open spec fn length_bytes(n: nat) -> Seq<u8> {
    if n < 128 {
        seq![n as u8]
    } else {
        seq![(0x80 + be_bytes(n).len()) as u8] + be_bytes(n)
    }
}

/// A tag-length-value element with tag byte `tag` and contents `c`.
pub open spec fn tlv(tag: u8, c: Seq<u8>) -> Seq<u8> {
    seq![tag] + length_bytes(c.len()) + c
}

/// Reading the minimal bytes of `n` gives `n`.
pub proof fn lemma_be_roundtrip(n: nat)
    ensures
        be_value(be_bytes(n)) == n,
        be_bytes(n).len() == 0 <==> n == 0,
        be_bytes(n).len() > 0 ==> be_bytes(n)[0] != 0,
    decreases n,
{
    if n != 0 {
        lemma_be_roundtrip(n / 256);
        let s = be_bytes(n);
        assert(s.drop_last() =~= be_bytes(n / 256));
        if n / 256 == 0 {
            assert(n % 256 == n);
        }
    }
}

/// Bytes without a leading zero are the minimal bytes of their value.
pub proof fn lemma_be_canonical(s: Seq<u8>)
    requires
        s.len() == 0 || s[0] != 0,
    ensures
        be_bytes(be_value(s)) == s,
        s.len() > 0 ==> be_value(s) > 0,
    decreases s.len(),
{
    if s.len() > 0 {
        let t = s.drop_last();
        if t.len() > 0 {
            assert(t[0] == s[0]);
        }
        lemma_be_canonical(t);
        let v = be_value(s);
        assert(v / 256 == be_value(t) && v % 256 == s.last()) by {
            assert(v == be_value(t) * 256 + s.last());
        }
        if t.len() == 0 {
            assert(be_value(t) == 0);
            assert(s.last() == s[0]);
        }
        assert(v > 0);
        assert(be_bytes(v) =~= be_bytes(be_value(t)).push(s.last()));
        assert(t.push(s.last()) =~= s);
    }
}

/// The minimal bytes of `n` are fewer than `k` exactly when `n < 256^k`.
pub proof fn lemma_be_len_bound(n: nat, k: nat)
    ensures
        be_bytes(n).len() <= k <==> n < pow256(k),
    decreases n,
{
    if n == 0 {
        lemma_pow256_pos(k);
    } else {
        lemma_be_len_bound(n / 256, if k > 0 { (k - 1) as nat } else { 0 });
        if k > 0 {
            assert(pow256(k) == 256 * pow256((k - 1) as nat));
            lemma_pow256_pos((k - 1) as nat);
        } else {
            assert(pow256(0) == 1);
        }
    }
}

/// `256^k`.
pub open spec fn pow256(k: nat) -> nat
    decreases k,
{
    if k == 0 {
        1
    } else {
        256 * pow256((k - 1) as nat)
    }
}

pub proof fn lemma_pow256_pos(k: nat)
    ensures
        pow256(k) >= 1,
    decreases k,
{
    if k > 0 {
        lemma_pow256_pos((k - 1) as nat);
    }
}

/// The value of `k` bytes is below `256^k`.
pub proof fn lemma_be_value_bound(s: Seq<u8>)
    ensures
        be_value(s) < pow256(s.len()),
    decreases s.len(),
{
    if s.len() > 0 {
        lemma_be_value_bound(s.drop_last());
        assert(pow256(s.len()) == 256 * pow256(s.drop_last().len()));
    }
}

pub proof fn lemma_pow256_8()
    ensures
        pow256(8) == 0x1_0000_0000_0000_0000,
{
    reveal_with_fuel(pow256, 9);
}

/// Appends the DER encoding of the length `n` to `out`.
pub fn push_length(out: &mut Vec<u8>, n: usize)
    ensures
        final(out)@ == old(out)@ + length_bytes(n as nat),
{
    if n < 128 {
        out.push(n as u8);
        return;
    }
    let mut tmp: Vec<u8> = Vec::new();
    let mut m: usize = n;
    while m > 0
        invariant
            be_bytes(n as nat) == be_bytes(m as nat) + tmp@.reverse(),
            tmp@.len() + be_bytes(m as nat).len() == be_bytes(n as nat).len(),
        decreases m,
    {
        let ghost old_tmp = tmp@;
        tmp.push((m % 256) as u8);
        assert(tmp@.reverse() =~= seq![(m % 256) as u8] + old_tmp.reverse());
        assert(be_bytes(m as nat) == be_bytes((m / 256) as nat).push((m % 256) as u8));
        assert(be_bytes(m as nat) + old_tmp.reverse() =~= be_bytes((m / 256) as nat) + tmp@.reverse());
        m = m / 256;
    }
    assert(be_bytes(0) =~= Seq::<u8>::empty());
    assert(tmp@.reverse() =~= be_bytes(n as nat));
    proof {
        lemma_be_len_bound(n as nat, 8);
        lemma_pow256_8();
    }
    let k = tmp.len();
    assert(k <= 8);
    out.push((0x80 + k) as u8);
    let ghost start = out@;
    let mut i: usize = k;
    while i > 0
        invariant
            i <= k,
            k == tmp@.len(),
            out@ == start + tmp@.reverse().subrange(0, (k - i) as int),
        decreases i,
    {
        i = i - 1;
        out.push(tmp[i]);
        assert(out@ =~= start + tmp@.reverse().subrange(0, (k - i) as int));
    }
    assert(tmp@.reverse().subrange(0, k as int) =~= tmp@.reverse());
    assert(out@ =~= old(out)@ + length_bytes(n as nat));
}

/// Reads a DER length at `pos`: the length and the position after it. A
/// length that is indefinite, not minimally encoded, or beyond the address
/// space is refused.
pub fn read_length(b: &[u8], pos: usize) -> (r: Option<(usize, usize)>)
    requires
        pos < b@.len(),
    ensures
        r matches Some((n, next)) ==> pos < next <= b@.len() && b@.subrange(pos as int, next as int)
            == length_bytes(n as nat),
        forall|n: nat|
            n <= usize::MAX && pos + length_bytes(n).len() <= b@.len() && #[trigger] b@.subrange(
                pos as int,
                pos + length_bytes(n).len(),
            ) == length_bytes(n) ==> r == Some((n as usize, (pos + length_bytes(n).len()) as usize)),
{
    let b0 = b[pos];
    if b0 < 0x80 {
        proof {
            assert(b@.subrange(pos as int, pos + 1) =~= length_bytes(b0 as nat));
            assert forall|n: nat|
                n <= usize::MAX && pos + length_bytes(n).len() <= b@.len() && #[trigger] b@.subrange(
                    pos as int,
                    pos + length_bytes(n).len(),
                ) == length_bytes(n) implies n == b0 && length_bytes(n).len() == 1 by {
                assert(b@.subrange(pos as int, pos + length_bytes(n).len())[0] == b0);
                if n >= 128 {
                    lemma_be_len_bound(n, 8);
                    lemma_pow256_8();
                }
            }
        }
        return Some((b0 as usize, pos + 1));
    }
    let k = (b0 - 0x80) as usize;
    if k == 0 || k > 8 || k >= b.len() - pos {
        proof {
            assert forall|n: nat|
                n <= usize::MAX && pos + length_bytes(n).len() <= b@.len() && #[trigger] b@.subrange(
                    pos as int,
                    pos + length_bytes(n).len(),
                ) == length_bytes(n) implies false by {
                assert(b@.subrange(pos as int, pos + length_bytes(n).len())[0] == b0);
                if n >= 128 {
                    lemma_be_roundtrip(n);
                    lemma_be_len_bound(n, 8);
                    lemma_pow256_8();
                }
            }
        }
        return None;
    }
    if b[pos + 1] == 0 {
        proof {
            assert forall|n: nat|
                n <= usize::MAX && pos + length_bytes(n).len() <= b@.len() && #[trigger] b@.subrange(
                    pos as int,
                    pos + length_bytes(n).len(),
                ) == length_bytes(n) implies false by {
                let t = b@.subrange(pos as int, pos + length_bytes(n).len());
                assert(t[0] == b0);
                lemma_be_roundtrip(n);
                assert(t[1] == b@[pos + 1]);
            }
        }
        return None;
    }
    let ghost s = b@.subrange(pos + 1, pos + 1 + k);
    let mut v: u64 = 0;
    let mut i: usize = 0;
    while i < k
        invariant
            1 <= k <= 8,
            pos + 1 + k <= b.len(),
            s == b@.subrange(pos + 1, pos + 1 + k),
            i <= k,
            v == be_value(s.subrange(0, i as int)),
        decreases k - i,
    {
        proof {
            lemma_be_value_bound(s.subrange(0, (i + 1) as int));
            lemma_pow256_8();
            assert(pow256((i + 1) as nat) <= pow256(8)) by {
                lemma_pow256_mono((i + 1) as nat, 8);
            }
            assert(s.subrange(0, (i + 1) as int).drop_last() =~= s.subrange(0, i as int));
        }
        v = v * 256 + b[pos + 1 + i] as u64;
        i = i + 1;
    }
    assert(s.subrange(0, k as int) =~= s);
    proof {
        lemma_be_canonical(s);
    }
    if v < 128 || v > usize::MAX as u64 {
        proof {
            assert forall|n: nat|
                n <= usize::MAX && pos + length_bytes(n).len() <= b@.len() && #[trigger] b@.subrange(
                    pos as int,
                    pos + length_bytes(n).len(),
                ) == length_bytes(n) implies false by {
                let t = b@.subrange(pos as int, pos + length_bytes(n).len());
                assert(t[0] == b0);
                lemma_be_len_bound(n, 8);
                lemma_pow256_8();
                if n >= 128 {
                    lemma_be_roundtrip(n);
                    assert(be_bytes(n).len() == k);
                    assert(t.subrange(1, 1 + k as int) =~= be_bytes(n));
                    assert(t.subrange(1, 1 + k as int) =~= s);
                }
            }
        }
        return None;
    }
    let n = v as usize;
    proof {
        assert(b@.subrange(pos as int, pos + 1 + k) =~= length_bytes(n as nat));
        assert forall|m: nat|
            m <= usize::MAX && pos + length_bytes(m).len() <= b@.len() && #[trigger] b@.subrange(
                pos as int,
                pos + length_bytes(m).len(),
            ) == length_bytes(m) implies m == n && length_bytes(m).len() == 1 + k by {
            let t = b@.subrange(pos as int, pos + length_bytes(m).len());
            assert(t[0] == b0);
            lemma_be_len_bound(m, 8);
            lemma_pow256_8();
            lemma_be_roundtrip(m);
            assert(m >= 128);
            assert(be_bytes(m).len() == k);
            assert(t.subrange(1, 1 + k as int) =~= be_bytes(m));
            assert(t.subrange(1, 1 + k as int) =~= s);
        }
    }
    Some((n, pos + 1 + k))
}

pub proof fn lemma_pow256_mono(a: nat, b: nat)
    requires
        a <= b,
    ensures
        pow256(a) <= pow256(b),
    decreases b,
{
    if a < b {
        lemma_pow256_mono(a, (b - 1) as nat);
        lemma_pow256_pos((b - 1) as nat);
    }
}

/// A tag that fits one byte: its low five bits are not all set.
pub open spec fn is_short_tag(tag: u8) -> bool {
    tag % 32 != 31
}

/// Appends the tag and length octets of an element with `len` bytes of
/// contents.
pub fn push_header(out: &mut Vec<u8>, tag: u8, len: usize)
    ensures
        final(out)@ == old(out)@ + seq![tag] + length_bytes(len as nat),
{
    out.push(tag);
    push_length(out, len);
}

/// Appends the element with tag `tag` and contents `content`.
pub fn push_tlv(out: &mut Vec<u8>, tag: u8, content: &[u8])
    ensures
        final(out)@ == old(out)@ + tlv(tag, content@),
{
    push_header(out, tag, content.len());
    crate::le::push_bytes(out, content);
    assert(out@ =~= old(out)@ + tlv(tag, content@));
}

/// The length of the encoding of a length.
pub proof fn lemma_length_bytes_len(n: nat)
    requires
        n <= usize::MAX,
    ensures
        1 <= length_bytes(n).len() <= 9,
{
    lemma_be_len_bound(n, 8);
    lemma_pow256_8();
}

/// Reads the element at `pos`: its tag and the bounds of its contents.
/// Multi-byte tags are refused, as are the lengths `read_length` refuses and
/// contents that run past the end of `b`.
pub fn read_tlv(b: &[u8], pos: usize) -> (r: Option<(u8, usize, usize)>)
    ensures
        r matches Some((t, s, e)) ==> {
            &&& pos < s <= e <= b@.len()
            &&& is_short_tag(t)
            &&& b@.subrange(pos as int, e as int) == tlv(t, b@.subrange(s as int, e as int))
            &&& s == pos + 1 + length_bytes((e - s) as nat).len()
        },
        forall|t: u8, c: Seq<u8>|
            is_short_tag(t) && pos + tlv(t, c).len() <= b@.len() && #[trigger] b@.subrange(
                pos as int,
                pos + tlv(t, c).len(),
            ) == tlv(t, c) ==> r == Some(
                (
                    t,
                    (pos + 1 + length_bytes(c.len()).len()) as usize,
                    (pos + tlv(t, c).len()) as usize,
                ),
            ),
{
    if pos >= b.len() || b.len() - pos < 2 {
        proof {
            assert forall|t: u8, c: Seq<u8>|
                is_short_tag(t) && pos + tlv(t, c).len() <= b@.len() && #[trigger] b@.subrange(
                    pos as int,
                    pos + tlv(t, c).len(),
                ) == tlv(t, c) implies false by {
                lemma_length_bytes_len(c.len());
            }
        }
        return None;
    }
    let t = b[pos];
    if t & 0x1f == 0x1f {
        proof {
            assert(t & 0x1f == 0x1f <==> t % 32 == 31) by (bit_vector);
            assert forall|t2: u8, c: Seq<u8>|
                is_short_tag(t2) && pos + tlv(t2, c).len() <= b@.len() && #[trigger] b@.subrange(
                    pos as int,
                    pos + tlv(t2, c).len(),
                ) == tlv(t2, c) implies false by {
                assert(b@.subrange(pos as int, pos + tlv(t2, c).len())[0] == t2);
            }
        }
        return None;
    }
    assert(t & 0x1f != 0x1f <==> t % 32 != 31) by (bit_vector);
    let lr = read_length(b, pos + 1);
    match lr {
        None => {
            proof {
                assert forall|t2: u8, c: Seq<u8>|
                    is_short_tag(t2) && pos + tlv(t2, c).len() <= b@.len() && #[trigger] b@.subrange(
                        pos as int,
                        pos + tlv(t2, c).len(),
                    ) == tlv(t2, c) implies false by {
                    let w = b@.subrange(pos as int, pos + tlv(t2, c).len());
                    let lb = length_bytes(c.len());
                    lemma_length_bytes_len(c.len());
                    assert(w.subrange(1, 1 + lb.len() as int) =~= lb);
                    assert(b@.subrange(pos + 1, pos + 1 + lb.len() as int) =~= w.subrange(1, 1 + lb.len() as int));
                }
            }
            None
        },
        Some((n, next)) => {
            if n > b.len() - next {
                proof {
                    assert forall|t2: u8, c: Seq<u8>|
                        is_short_tag(t2) && pos + tlv(t2, c).len() <= b@.len()
                            && #[trigger] b@.subrange(pos as int, pos + tlv(t2, c).len()) == tlv(
                            t2,
                            c,
                        ) implies false by {
                        let w = b@.subrange(pos as int, pos + tlv(t2, c).len());
                        let lb = length_bytes(c.len());
                        lemma_length_bytes_len(c.len());
                        assert(w.subrange(1, 1 + lb.len() as int) =~= lb);
                        assert(b@.subrange(pos + 1, pos + 1 + lb.len() as int) =~= w.subrange(
                            1,
                            1 + lb.len() as int,
                        ));
                    }
                }
                return None;
            }
            let e = next + n;
            proof {
                assert(b@.subrange(pos as int, e as int) =~= tlv(t, b@.subrange(next as int, e as int)));
                assert forall|t2: u8, c: Seq<u8>|
                    is_short_tag(t2) && pos + tlv(t2, c).len() <= b@.len() && #[trigger] b@.subrange(
                        pos as int,
                        pos + tlv(t2, c).len(),
                    ) == tlv(t2, c) implies t2 == t && n == c.len() && next == pos + 1
                        + length_bytes(c.len()).len() by {
                    let w = b@.subrange(pos as int, pos + tlv(t2, c).len());
                    let lb = length_bytes(c.len());
                    lemma_length_bytes_len(c.len());
                    assert(w[0] == t2);
                    assert(w.subrange(1, 1 + lb.len() as int) =~= lb);
                    assert(b@.subrange(pos + 1, pos + 1 + lb.len() as int) =~= w.subrange(1, 1 + lb.len() as int));
                }
            }
            Some((t, next, e))
        },
    }
}

/// The concatenation of a sequence of encodings.
pub open spec fn concat_all(s: Seq<Seq<u8>>) -> Seq<u8>
    decreases s.len(),
{
    if s.len() == 0 {
        seq![]
    } else {
        s[0] + concat_all(s.skip(1))
    }
}

/// A complete element with a one-byte tag.
pub open spec fn is_element(e: Seq<u8>) -> bool {
    e.len() >= 1 && is_short_tag(e[0]) && exists|c: Seq<u8>| e == tlv(e[0], c)
}

/// Every entry of `s` is a complete element.
pub open spec fn all_elements(s: Seq<Seq<u8>>) -> bool {
    forall|i: int| 0 <= i < s.len() ==> is_element(#[trigger] s[i])
}

/// Appending one encoding at the end of a concatenation.
pub proof fn lemma_concat_push(s: Seq<Seq<u8>>, x: Seq<u8>)
    ensures
        concat_all(s.push(x)) == concat_all(s) + x,
    decreases s.len(),
{
    if s.len() == 0 {
        let t = s.push(x);
        assert(t.skip(1) =~= Seq::<Seq<u8>>::empty());
        assert(concat_all(t.skip(1)) == Seq::<u8>::empty());
        assert(concat_all(t) == t[0] + concat_all(t.skip(1)));
        assert(concat_all(t) =~= x);
        assert(concat_all(s) + x =~= x);
    } else {
        lemma_concat_push(s.skip(1), x);
        assert(s.push(x).skip(1) =~= s.skip(1).push(x));
        assert(concat_all(s.push(x)) =~= s[0] + (concat_all(s.skip(1)) + x));
    }
}

/// Splitting off the first encoding of a concatenation.
pub proof fn lemma_concat_first(s: Seq<Seq<u8>>)
    requires
        s.len() > 0,
    ensures
        concat_all(s) == s[0] + concat_all(s.skip(1)),
{
}

/// The contents of a sequence of byte vectors.
pub open spec fn views(v: Seq<Vec<u8>>) -> Seq<Seq<u8>> {
    v.map_values(|x: Vec<u8>| x@)
}

/// Copies every vector of `v`.
pub fn clone_all(v: &Vec<Vec<u8>>) -> (r: Vec<Vec<u8>>)
    ensures
        views(r@) == views(v@),
{
    let mut r: Vec<Vec<u8>> = Vec::new();
    let mut i: usize = 0;
    while i < v.len()
        invariant
            i <= v@.len(),
            views(r@) == views(v@.subrange(0, i as int)),
        decreases v@.len() - i,
    {
        let c = copy_range(v[i].as_slice(), 0, v[i].len());
        assert(c@ =~= v@[i as int]@);
        let ghost before = r@;
        r.push(c);
        assert(r@ == before.push(c));
        assert(views(r@) =~= views(before).push(c@));
        assert(views(r@) =~= views(v@.subrange(0, i + 1)));
        i = i + 1;
    }
    assert(v@.subrange(0, v@.len() as int) =~= v@);
    r
}

/// Reads the elements that exactly fill `b[start..end]`.
pub fn read_elements(b: &[u8], start: usize, end: usize) -> (r: Option<Vec<Vec<u8>>>)
    requires
        start <= end <= b@.len(),
    ensures
        r matches Some(v) ==> all_elements(views(v@)) && concat_all(views(v@))
            == b@.subrange(start as int, end as int),
        forall|cs: Seq<Seq<u8>>|
            all_elements(cs) && #[trigger] concat_all(cs) == b@.subrange(start as int, end as int)
                ==> (r matches Some(v) && views(v@) == cs),
{
    let mut v: Vec<Vec<u8>> = Vec::new();
    let mut pos = start;
    proof {
        assert(views(v@) =~= Seq::<Seq<u8>>::empty());
        assert(b@.subrange(start as int, start as int) =~= Seq::<u8>::empty());
        assert forall|cs: Seq<Seq<u8>>|
            all_elements(cs) && #[trigger] concat_all(cs) == b@.subrange(start as int, end as int)
                implies cs.subrange(0, 0) == views(v@) && concat_all(cs.skip(0)) == b@.subrange(
                start as int,
                end as int,
            ) by {
            assert(cs.subrange(0, 0) =~= views(v@));
            assert(cs.skip(0) =~= cs);
        }
    }
    while pos < end
        invariant
            start <= pos <= end <= b@.len(),
            all_elements(views(v@)),
            concat_all(views(v@)) == b@.subrange(start as int, pos as int),
            forall|cs: Seq<Seq<u8>>|
                all_elements(cs) && #[trigger] concat_all(cs) == b@.subrange(start as int, end as int)
                    ==> views(v@).len() <= cs.len() && cs.subrange(0, views(v@).len() as int)
                    == views(v@) && concat_all(cs.skip(views(v@).len() as int)) == b@.subrange(
                    pos as int,
                    end as int,
                ),
        decreases end - pos,
    {
        let sub = vstd::slice::slice_subrange(b, 0, end);
        match read_tlv(sub, pos) {
            None => {
                proof {
                    assert forall|cs: Seq<Seq<u8>>|
                        all_elements(cs) && #[trigger] concat_all(cs) == b@.subrange(
                            start as int,
                            end as int,
                        ) implies false by {
                        let k = views(v@).len() as int;
                        let rest = cs.skip(k);
                        if rest.len() == 0 {
                            assert(concat_all(rest) =~= Seq::<u8>::empty());
                        } else {
                            lemma_concat_first(rest);
                            let e = rest[0];
                            assert(is_element(cs[k]));
                            let c = choose|c: Seq<u8>| e == tlv(e[0], c);
                            let w = b@.subrange(pos as int, end as int);
                            assert(w == e + concat_all(rest.skip(1)));
                            assert(w.subrange(0, e.len() as int) =~= e);
                            assert(sub@.subrange(pos as int, pos + e.len()) =~= w.subrange(0, e.len() as int));
                            assert(sub@.subrange(pos as int, pos + tlv(e[0], c).len()) == tlv(e[0], c));
                        }
                    }
                }
                return None;
            },
            Some((t, s, e)) => {
                let mut elem: Vec<u8> = Vec::new();
                crate::le::push_bytes(&mut elem, vstd::slice::slice_subrange(b, pos, e));
                proof {
                    assert(sub@.subrange(pos as int, e as int) =~= b@.subrange(pos as int, e as int));
                    assert(sub@.subrange(s as int, e as int) =~= b@.subrange(s as int, e as int));
                    assert(elem@ =~= b@.subrange(pos as int, e as int));
                    assert(is_element(elem@)) by {
                        assert(elem@[0] == t);
                        assert(elem@ == tlv(t, b@.subrange(s as int, e as int)));
                    }
                    let ghost old_v = views(v@);
                    assert forall|cs: Seq<Seq<u8>>|
                        all_elements(cs) && #[trigger] concat_all(cs) == b@.subrange(
                            start as int,
                            end as int,
                        ) implies old_v.len() < cs.len() && cs[old_v.len() as int] == elem@ && concat_all(
                        cs.skip(old_v.len() as int + 1),
                    ) == b@.subrange(e as int, end as int) by {
                        let k = old_v.len() as int;
                        let rest = cs.skip(k);
                        if rest.len() == 0 {
                            assert(concat_all(rest) =~= Seq::<u8>::empty());
                            assert(false);
                        }
                        lemma_concat_first(rest);
                        let x = rest[0];
                        assert(is_element(cs[k]));
                        let c = choose|c: Seq<u8>| x == tlv(x[0], c);
                        let w = b@.subrange(pos as int, end as int);
                        assert(w == x + concat_all(rest.skip(1)));
                        assert(w.subrange(0, x.len() as int) =~= x);
                        assert(sub@.subrange(pos as int, pos + x.len()) =~= w.subrange(0, x.len() as int));
                        assert(sub@.subrange(pos as int, pos + tlv(x[0], c).len()) == tlv(x[0], c));
                        assert(e == pos + x.len());
                        assert(x =~= elem@);
                        assert(rest.skip(1) =~= cs.skip(k + 1));
                        assert(w.subrange(x.len() as int, (end - pos) as int) =~= b@.subrange(
                            e as int,
                            end as int,
                        ));
                        assert(w.subrange(x.len() as int, (end - pos) as int) =~= concat_all(rest.skip(1)));
                    }
                }
                let ghost old_v = views(v@);
                v.push(elem);
                proof {
                    assert(views(v@) =~= old_v.push(elem@));
                    lemma_concat_push(old_v, elem@);
                    assert(b@.subrange(start as int, e as int) =~= b@.subrange(start as int, pos as int)
                        + b@.subrange(pos as int, e as int));
                    assert forall|cs: Seq<Seq<u8>>|
                        all_elements(cs) && #[trigger] concat_all(cs) == b@.subrange(
                            start as int,
                            end as int,
                        ) implies views(v@).len() <= cs.len() && cs.subrange(
                        0,
                        views(v@).len() as int,
                    ) == views(v@) && concat_all(cs.skip(views(v@).len() as int)) == b@.subrange(
                        e as int,
                        end as int,
                    ) by {
                        assert(cs.subrange(0, views(v@).len() as int) =~= cs.subrange(
                            0,
                            old_v.len() as int,
                        ).push(cs[old_v.len() as int]));
                    }
                }
                pos = e;
            },
        }
    }
    proof {
        assert forall|cs: Seq<Seq<u8>>|
            all_elements(cs) && #[trigger] concat_all(cs) == b@.subrange(start as int, end as int)
                implies views(v@) == cs by {
            let k = views(v@).len() as int;
            let rest = cs.skip(k);
            if rest.len() > 0 {
                lemma_concat_first(rest);
                assert(is_element(cs[k]));
                assert(rest[0].len() >= 1);
                assert(b@.subrange(pos as int, end as int).len() == 0);
                assert(false);
            }
            assert(cs =~= cs.subrange(0, k));
        }
    }
    Some(v)
}

/// Reads an element with tag `tag` that fills the whole of `b` and whose
/// contents are complete elements: those elements.
pub fn read_constructed(b: &[u8], tag: u8) -> (r: Option<Vec<Vec<u8>>>)
    requires
        is_short_tag(tag),
    ensures
        r matches Some(v) ==> all_elements(views(v@)) && tlv(tag, concat_all(views(v@))) == b@,
        forall|cs: Seq<Seq<u8>>|
            all_elements(cs) && #[trigger] tlv(tag, concat_all(cs)) == b@ ==> (r matches Some(v) && views(v@)
                == cs),
{
    let ghost bs = b@;
    let blen = b.len();
    assert(bs.len() == blen);
    let (s0, e0) = match expect_tlv(b, 0, tag) {
        Some(p) => p,
        None => {
            proof {
                assert forall|cs: Seq<Seq<u8>>|
                    all_elements(cs) && #[trigger] tlv(tag, concat_all(cs)) == b@ implies false by {
                    assert(bs.subrange(0, 0int + bs.len()) =~= bs);
                }
            }
            return None;
        },
    };
    if e0 != blen {
        proof {
            assert forall|cs: Seq<Seq<u8>>|
                all_elements(cs) && #[trigger] tlv(tag, concat_all(cs)) == b@ implies false by {
                assert(bs.subrange(0, 0int + bs.len()) =~= bs);
            }
        }
        return None;
    }
    proof {
        assert forall|cs: Seq<Seq<u8>>|
            all_elements(cs) && #[trigger] tlv(tag, concat_all(cs)) == b@ implies concat_all(cs)
                == bs.subrange(s0 as int, e0 as int) by {
            assert(bs.subrange(0, 0int + bs.len()) =~= bs);
            lemma_tlv_content(bs, 0, tag, concat_all(cs));
        }
    }
    let r = read_elements(b, s0, e0);
    proof {
        assert(bs =~= bs.subrange(0, e0 as int));
    }
    r
}

/// The contents of an element with tag `tag` that fills the whole of `b`.
pub fn read_whole(b: &[u8], tag: u8) -> (r: Option<Vec<u8>>)
    requires
        is_short_tag(tag),
    ensures
        r matches Some(c) ==> tlv(tag, c@) == b@,
        forall|c: Seq<u8>| #[trigger] tlv(tag, c) == b@ ==> (r matches Some(v) && v@ == c),
{
    let ghost bs = b@;
    assert(bs.subrange(0, bs.len() as int) =~= bs);
    match expect_tlv(b, 0, tag) {
        Some((s, e)) => {
            if e != b.len() {
                proof {
                    assert forall|c: Seq<u8>| #[trigger] tlv(tag, c) == b@ implies false by {
                        assert(bs.subrange(0, 0int + bs.len()) =~= bs);
                    }
                }
                return None;
            }
            let v = copy_range(b, s, e);
            proof {
                assert forall|c: Seq<u8>| #[trigger] tlv(tag, c) == b@ implies v@ == c by {
                    assert(bs.subrange(0, 0int + bs.len()) =~= bs);
                    lemma_tlv_content(bs, 0, tag, c);
                }
            }
            Some(v)
        },
        None => {
            proof {
                assert forall|c: Seq<u8>| #[trigger] tlv(tag, c) == b@ implies false by {
                    assert(bs.subrange(0, 0int + bs.len()) =~= bs);
                }
            }
            None
        },
    }
}

/// An element with a one-byte tag is a complete element.
pub proof fn lemma_tlv_is_element(tag: u8, c: Seq<u8>)
    requires
        is_short_tag(tag),
    ensures
        is_element(tlv(tag, c)),
{
    assert(tlv(tag, c)[0] == tag);
}

/// The concatenation of two, three, four or seven encodings.
pub proof fn lemma_concat_small(a: Seq<u8>, b: Seq<u8>, c: Seq<u8>, d: Seq<u8>, e: Seq<u8>, f: Seq<u8>, g: Seq<u8>)
    ensures
        concat_all(seq![a, b]) == a + b,
        concat_all(seq![a, b, c]) == a + b + c,
        concat_all(seq![a, b, c, d]) == a + b + c + d,
        concat_all(seq![a, b, c, d, e, f, g]) == a + b + c + d + e + f + g,
{
    reveal_with_fuel(concat_all, 8);
    assert(seq![a, b].skip(1) =~= seq![b]);
    assert(seq![b].skip(1) =~= Seq::<Seq<u8>>::empty());
    assert(concat_all(seq![a, b]) =~= a + b);
    assert(seq![a, b, c].skip(1) =~= seq![b, c]);
    assert(seq![b, c].skip(1) =~= seq![c]);
    assert(seq![c].skip(1) =~= Seq::<Seq<u8>>::empty());
    assert(concat_all(seq![a, b, c]) =~= a + b + c);
    assert(seq![a, b, c, d].skip(1) =~= seq![b, c, d]);
    assert(seq![b, c, d].skip(1) =~= seq![c, d]);
    assert(seq![c, d].skip(1) =~= seq![d]);
    assert(seq![d].skip(1) =~= Seq::<Seq<u8>>::empty());
    assert(concat_all(seq![a, b, c, d]) =~= a + b + c + d);
    assert(seq![a, b, c, d, e, f, g].skip(1) =~= seq![b, c, d, e, f, g]);
    assert(seq![b, c, d, e, f, g].skip(1) =~= seq![c, d, e, f, g]);
    assert(seq![c, d, e, f, g].skip(1) =~= seq![d, e, f, g]);
    assert(seq![d, e, f, g].skip(1) =~= seq![e, f, g]);
    assert(seq![e, f, g].skip(1) =~= seq![f, g]);
    assert(seq![f, g].skip(1) =~= seq![g]);
    assert(seq![g].skip(1) =~= Seq::<Seq<u8>>::empty());
    assert(concat_all(seq![a, b, c, d, e, f, g]) =~= a + b + c + d + e + f + g);
}

/// A window of `b` that holds `x + y` holds `x` first and `y` after it.
pub proof fn lemma_split(b: Seq<u8>, p: int, q: int, x: Seq<u8>, y: Seq<u8>)
    requires
        0 <= p <= q <= b.len(),
        b.subrange(p, q) == x + y,
    ensures
        p + x.len() <= q,
        b.subrange(p, p + x.len()) == x,
        b.subrange(p + x.len(), q) == y,
{
    let w = b.subrange(p, q);
    assert(w.len() == x.len() + y.len());
    assert forall|i: int| 0 <= i < x.len() implies b.subrange(p, p + x.len())[i] == x[i] by {
        assert(w[i] == (x + y)[i]);
    }
    assert(b.subrange(p, p + x.len()) =~= x);
    assert forall|i: int| 0 <= i < y.len() implies b.subrange(p + x.len(), q)[i] == y[i] by {
        assert(w[x.len() + i] == (x + y)[x.len() + i]);
    }
    assert(b.subrange(p + x.len(), q) =~= y);
}

/// The contents of an element sit after its tag and length octets.
pub proof fn lemma_tlv_content(b: Seq<u8>, pos: int, tag: u8, c: Seq<u8>)
    requires
        0 <= pos,
        pos + tlv(tag, c).len() <= b.len(),
        b.subrange(pos, pos + tlv(tag, c).len()) == tlv(tag, c),
    ensures
        b.subrange(pos + 1 + length_bytes(c.len()).len(), pos + tlv(tag, c).len()) == c,
{
    lemma_split(
        b,
        pos,
        pos + tlv(tag, c).len(),
        seq![tag] + length_bytes(c.len()),
        c,
    );
}

/// When `b` is an element with tag `outer` whose contents are two elements,
/// it spans all of `b`, and its contents are those two elements in turn.
pub proof fn lemma_pair_layout(b: Seq<u8>, outer: u8, t1: u8, x: Seq<u8>, t2: u8, y: Seq<u8>)
    requires
        tlv(outer, tlv(t1, x) + tlv(t2, y)) == b,
        b.len() <= usize::MAX,
    ensures
        ({
            let inner = tlv(t1, x) + tlv(t2, y);
            let s0: int = 1 + length_bytes(inner.len()).len() as int;
            &&& b.subrange(0, 0int + tlv(outer, inner).len()) == tlv(outer, inner)
            &&& tlv(outer, inner).len() == b.len()
            &&& s0 <= b.len()
            &&& tlv(t1, x) + tlv(t2, y) == b.subrange(s0, b.len() as int)
            &&& s0 + tlv(t1, x).len() <= b.len()
            &&& tlv(t2, y) + Seq::<u8>::empty() == b.subrange(s0 + tlv(t1, x).len(), b.len() as int)
        }),
{
    let inner = tlv(t1, x) + tlv(t2, y);
    let s0: int = 1 + length_bytes(inner.len()).len() as int;
    assert(b.subrange(0, b.len() as int) =~= b);
    lemma_tlv_content(b, 0, outer, inner);
    lemma_split(b, s0, b.len() as int, tlv(t1, x), tlv(t2, y));
    assert(tlv(t2, y) + Seq::<u8>::empty() =~= tlv(t2, y));
}

/// Reads the element at `pos`, which must carry the tag `tag`.
pub fn expect_tlv(b: &[u8], pos: usize, tag: u8) -> (r: Option<(usize, usize)>)
    requires
        is_short_tag(tag),
    ensures
        r matches Some((s, e)) ==> {
            &&& pos < s <= e <= b@.len()
            &&& b@.subrange(pos as int, e as int) == tlv(tag, b@.subrange(s as int, e as int))
            &&& s == pos + 1 + length_bytes((e - s) as nat).len()
        },
        forall|c: Seq<u8>|
            pos + tlv(tag, c).len() <= b@.len() && #[trigger] b@.subrange(
                pos as int,
                pos + tlv(tag, c).len(),
            ) == tlv(tag, c) ==> r == Some(
                (
                    (pos + 1 + length_bytes(c.len()).len()) as usize,
                    (pos + tlv(tag, c).len()) as usize,
                ),
            ),
{
    match read_tlv(b, pos) {
        Some((t, s, e)) => {
            if t == tag {
                Some((s, e))
            } else {
                proof {
                    assert forall|c: Seq<u8>|
                        pos + tlv(tag, c).len() <= b@.len() && #[trigger] b@.subrange(
                            pos as int,
                            pos + tlv(tag, c).len(),
                        ) == tlv(tag, c) implies false by {
                        assert(b@.subrange(pos as int, pos + tlv(tag, c).len())[0] == tag);
                        assert(b@.subrange(pos as int, e as int)[0] == t);
                    }
                }
                None
            }
        },
        None => None,
    }
}

/// Input that is not the DER encoding of the expected structure.
#[derive(Debug, Clone, Copy, PartialEq, Eq, Structural)]
pub struct Asn1Error;

/// The contents of the DER INTEGER whose value is `v`: minimal two's
/// complement, so values from 128 up take a leading zero byte.
pub open spec fn u8_integer_content(v: u8) -> Seq<u8> {
    if v < 128 {
        seq![v]
    } else {
        seq![0u8, v]
    }
}

/// Appends the DER INTEGER of `v`.
pub fn push_u8_integer(out: &mut Vec<u8>, v: u8)
    ensures
        final(out)@ == old(out)@ + tlv(0x02, u8_integer_content(v)),
{
    let mut c: Vec<u8> = Vec::new();
    if v >= 128 {
        c.push(0);
    }
    c.push(v);
    assert(c@ =~= u8_integer_content(v));
    push_tlv(out, 0x02, c.as_slice());
}

/// Reads a DER INTEGER between 0 and 255 from the contents `b[s..e]`.
pub fn read_u8_integer(b: &[u8], s: usize, e: usize) -> (r: Option<u8>)
    requires
        s <= e <= b@.len(),
    ensures
        r matches Some(v) ==> u8_integer_content(v) == b@.subrange(s as int, e as int),
        forall|v: u8| #[trigger] u8_integer_content(v) == b@.subrange(s as int, e as int) ==> r == Some(v),
{
    let ghost w = b@.subrange(s as int, e as int);
    if e - s == 1 && b[s] < 128 {
        assert(u8_integer_content(b[s as int]) =~= w);
        assert forall|v: u8| #[trigger] u8_integer_content(v) == w implies v == b[s as int] by {
            assert(w[0] == b[s as int]);
        }
        return Some(b[s]);
    }
    if e - s == 2 && b[s] == 0 && b[s + 1] >= 128 {
        assert(u8_integer_content(b[s + 1]) =~= w);
        assert forall|v: u8| #[trigger] u8_integer_content(v) == w implies v == b[s + 1] by {
            assert(w[1] == b[s + 1]);
        }
        return Some(b[s + 1]);
    }
    proof {
        assert forall|v: u8| #[trigger] u8_integer_content(v) == w implies false by {
            assert(w.len() == e - s);
            if v < 128 {
                assert(w[0] == b[s as int]);
                assert(w[0] == v);
            } else {
                assert(w[0] == b[s as int]);
                assert(w[1] == b[s + 1]);
                assert(w[0] == 0);
                assert(w[1] == v);
            }
        }
    }
    None
}

/// Copies `b[s..e]` into a new vector.
pub fn copy_range(b: &[u8], s: usize, e: usize) -> (v: Vec<u8>)
    requires
        s <= e <= b@.len(),
    ensures
        v@ == b@.subrange(s as int, e as int),
{
    let mut v: Vec<u8> = Vec::new();
    crate::le::push_bytes(&mut v, vstd::slice::slice_subrange(b, s, e));
    assert(v@ =~= b@.subrange(s as int, e as int));
    v
}

/// Reads the element with tag `tag` that starts `b[pos..end]`: the bounds of
/// its contents. It is found whenever the window begins with such an
/// element.
pub fn read_prefixed(b: &[u8], pos: usize, end: usize, tag: u8) -> (r: Option<(usize, usize)>)
    requires
        pos <= end <= b@.len(),
        is_short_tag(tag),
    ensures
        r matches Some((s, e)) ==> {
            &&& pos < s <= e <= end
            &&& b@.subrange(pos as int, e as int) == tlv(tag, b@.subrange(s as int, e as int))
        },
        forall|c: Seq<u8>, rest: Seq<u8>|
            #[trigger] (tlv(tag, c) + rest) == b@.subrange(pos as int, end as int) ==> r == Some(
                (
                    (pos + 1 + length_bytes(c.len()).len()) as usize,
                    (pos + tlv(tag, c).len()) as usize,
                ),
            ),
{
    let sub = vstd::slice::slice_subrange(b, 0, end);
    let r = expect_tlv(sub, pos, tag);
    proof {
        assert forall|c: Seq<u8>, rest: Seq<u8>|
            #[trigger] (tlv(tag, c) + rest) == b@.subrange(pos as int, end as int) implies r == Some(
                (
                    (pos + 1 + length_bytes(c.len()).len()) as usize,
                    (pos + tlv(tag, c).len()) as usize,
                ),
            ) by {
            lemma_split(b@, pos as int, end as int, tlv(tag, c), rest);
            assert(sub@.subrange(pos as int, pos + tlv(tag, c).len()) =~= b@.subrange(
                pos as int,
                pos + tlv(tag, c).len(),
            ));
        }
        if let Some((s, e)) = r {
            assert(sub@.subrange(pos as int, e as int) =~= b@.subrange(pos as int, e as int));
            assert(sub@.subrange(s as int, e as int) =~= b@.subrange(s as int, e as int));
        }
    }
    r
}

/// Reads the complete element that starts `b[pos..end]`, whatever its tag:
/// the position after it.
pub fn read_prefixed_element(b: &[u8], pos: usize, end: usize) -> (r: Option<usize>)
    requires
        pos <= end <= b@.len(),
    ensures
        r matches Some(e) ==> pos < e <= end && is_element(b@.subrange(pos as int, e as int)),
        forall|x: Seq<u8>, rest: Seq<u8>|
            is_element(x) && #[trigger] (x + rest) == b@.subrange(pos as int, end as int) ==> r == Some(
                (pos + x.len()) as usize,
            ),
{
    let sub = vstd::slice::slice_subrange(b, 0, end);
    let r = read_tlv(sub, pos);
    proof {
        assert forall|x: Seq<u8>, rest: Seq<u8>|
            is_element(x) && #[trigger] (x + rest) == b@.subrange(pos as int, end as int) implies r
                matches Some((_, _, e)) && e == pos + x.len() by {
            lemma_split(b@, pos as int, end as int, x, rest);
            let c = choose|c: Seq<u8>| x == tlv(x[0], c);
            assert(sub@.subrange(pos as int, pos + tlv(x[0], c).len()) =~= b@.subrange(
                pos as int,
                pos + x.len(),
            ));
        }
    }
    match r {
        Some((t, s, e)) => {
            proof {
                assert(sub@.subrange(pos as int, e as int) =~= b@.subrange(pos as int, e as int));
                assert(sub@.subrange(s as int, e as int) =~= b@.subrange(s as int, e as int));
                assert(b@.subrange(pos as int, e as int)[0] == t);
            }
            Some(e)
        },
        None => None,
    }
}

/// The largest length the DER structures built with length checks accept
/// (256 MiB - 1).
pub const DER_MAX_LEN: usize = 0x0fff_ffff;

/// The base-128 digits of `n`, most significant first; every byte but the
/// last has its top bit set, and the last has it set unless `last`.
pub open spec fn base128(n: nat, last: bool) -> Seq<u8>
    decreases n,
{
    let low: u8 = ((n % 128) + (if last { 0int } else { 128int })) as u8;
    if n < 128 {
        seq![low]
    } else {
        base128(n / 128, false).push(low)
    }
}

/// The contents of the DER OBJECT IDENTIFIER with arcs `arcs`: the first two
/// arcs combined as `40 * first + second`, then every arc in base 128.
pub open spec fn oid_content(arcs: Seq<u64>) -> Seq<u8>
    recommends
        arcs.len() >= 2,
{
    base128((40 * arcs[0] + arcs[1]) as nat, true) + concat_all(
        arcs.skip(2).map_values(|a: u64| base128(a as nat, true)),
    )
}

/// Arcs that form an object identifier: at least two, the first at most 2,
/// the second below 40 unless the first is 2.
pub open spec fn valid_arcs(arcs: Seq<u64>) -> bool {
    &&& arcs.len() >= 2
    &&& arcs[0] <= 2
    &&& (arcs[0] < 2 ==> arcs[1] < 40)
    &&& arcs[1] <= u64::MAX - 80
}

/// The base-128 bytes of `n` still to come when `n` has digits left.
pub open spec fn base128_rest(n: nat) -> Seq<u8> {
    if n == 0 {
        seq![]
    } else {
        base128(n, false)
    }
}

/// Appends the base-128 bytes of `n` (the last byte without its top bit).
pub fn push_base128(out: &mut Vec<u8>, n: u64)
    ensures
        final(out)@ == old(out)@ + base128(n as nat, true),
{
    let mut tmp: Vec<u8> = Vec::new();
    tmp.push((n % 128) as u8);
    let mut m: u64 = n / 128;
    assert(base128(n as nat, true) =~= base128_rest(m as nat) + tmp@.reverse());
    while m > 0
        invariant
            base128(n as nat, true) == base128_rest(m as nat) + tmp@.reverse(),
        decreases m,
    {
        let ghost old_tmp = tmp@;
        let d = (m % 128) as u8 + 128;
        tmp.push(d);
        assert(tmp@.reverse() =~= seq![d] + old_tmp.reverse());
        assert(base128_rest(m as nat) =~= base128_rest((m / 128) as nat) + seq![d]);
        m = m / 128;
        assert(base128(n as nat, true) =~= base128_rest(m as nat) + tmp@.reverse());
    }
    let ghost start = out@;
    let k = tmp.len();
    let mut i: usize = k;
    while i > 0
        invariant
            i <= k,
            k == tmp@.len(),
            out@ == start + tmp@.reverse().subrange(0, (k - i) as int),
        decreases i,
    {
        i = i - 1;
        out.push(tmp[i]);
        assert(out@ =~= start + tmp@.reverse().subrange(0, (k - i) as int));
    }
    assert(tmp@.reverse().subrange(0, k as int) =~= tmp@.reverse());
    assert(base128_rest(0) =~= Seq::<u8>::empty());
    assert(out@ =~= start + base128(n as nat, true));
}

/// The contents of the OBJECT IDENTIFIER with arcs `arcs`.
pub fn oid_from_arcs(arcs: &[u64]) -> (c: Vec<u8>)
    requires
        valid_arcs(arcs@),
    ensures
        c@ == oid_content(arcs@),
{
    let mut c: Vec<u8> = Vec::new();
    push_base128(&mut c, 40 * arcs[0] + arcs[1]);
    let ghost tail = arcs@.skip(2).map_values(|a: u64| base128(a as nat, true));
    let ghost head = base128((40 * arcs@[0] + arcs@[1]) as nat, true);
    let mut i: usize = 2;
    assert(c@ =~= head + concat_all(tail.subrange(0, 0)));
    while i < arcs.len()
        invariant
            2 <= i <= arcs@.len(),
            tail == arcs@.skip(2).map_values(|a: u64| base128(a as nat, true)),
            c@ == head + concat_all(tail.subrange(0, i - 2)),
        decreases arcs@.len() - i,
    {
        proof {
            lemma_concat_push(tail.subrange(0, i - 2), tail[i - 2]);
            assert(tail.subrange(0, i - 2).push(tail[i - 2]) =~= tail.subrange(0, i - 1));
        }
        push_base128(&mut c, arcs[i]);
        i = i + 1;
    }
    assert(tail.subrange(0, arcs@.len() - 2) =~= tail);
    c
}

/// `a` sorts strictly before `b` as octet strings: at the first position
/// where they differ `a` has the smaller byte, or `a` is a proper prefix of
/// `b`. This is the order of the elements of a DER `SET OF`.
pub open spec fn lex_lt(a: Seq<u8>, b: Seq<u8>) -> bool {
    exists|i: int|
        0 <= i <= a.len() && i <= b.len() && a.take(i) == b.take(i) && ((i < a.len() && i < b.len()
            && a[i] < b[i]) || (i == a.len() && i < b.len()))
}

/// Whether `a` sorts strictly before `b` as octet strings.
pub fn lex_less(a: &[u8], b: &[u8]) -> (r: bool)
    ensures
        r == lex_lt(a@, b@),
{
    let mut i: usize = 0;
    while i < a.len() && i < b.len()
        invariant
            i <= a@.len() && i <= b@.len(),
            a@.take(i as int) == b@.take(i as int),
        decreases a@.len() - i,
    {
        if a[i] != b[i] {
            let r = a[i] < b[i];
            proof {
                if !r {
                    assert forall|j: int|
                        0 <= j <= a@.len() && j <= b@.len() && a@.take(j) == b@.take(j) implies !((j
                            < a@.len() && j < b@.len() && a@[j] < b@[j]) || (j == a@.len() && j
                            < b@.len())) by {
                        if j > i {
                            assert(a@.take(j)[i as int] == b@.take(j)[i as int]);
                        } else if j < i {
                            assert(a@.take(i as int)[j] == b@.take(i as int)[j]);
                        }
                    }
                }
            }
            return r;
        }
        assert(a@.take(i + 1) =~= b@.take(i + 1)) by {
            assert(a@.take(i as int) == b@.take(i as int));
            assert forall|j: int| 0 <= j < i + 1 implies #[trigger] a@.take(i + 1)[j] == b@.take(i + 1)[j] by {
                if j < i {
                    assert(a@.take(i as int)[j] == b@.take(i as int)[j]);
                }
            }
        }
        i = i + 1;
    }
    let r = i == a.len() && i < b.len();
    proof {
        if !r {
            assert forall|j: int|
                0 <= j <= a@.len() && j <= b@.len() && a@.take(j) == b@.take(j) implies !((j < a@.len()
                    && j < b@.len() && a@[j] < b@[j]) || (j == a@.len() && j < b@.len())) by {
                if j < i {
                    assert(a@.take(i as int)[j] == b@.take(i as int)[j]);
                }
            }
        }
    }
    r
}

/// Two different octet strings are ordered one way or the other.
pub proof fn lemma_lex_total(a: Seq<u8>, b: Seq<u8>)
    requires
        a != b,
    ensures
        lex_lt(a, b) || lex_lt(b, a),
{
    let n = if a.len() < b.len() { a.len() } else { b.len() };
    if a.take(n as int) == b.take(n as int) {
        if a.len() == b.len() {
            assert(a =~= a.take(n as int));
            assert(b =~= b.take(n as int));
        } else if a.len() < b.len() {
            assert(a.take(a.len() as int) == b.take(a.len() as int));
            assert(lex_lt(a, b));
        } else {
            assert(b.take(b.len() as int) == a.take(b.len() as int));
        }
    } else {
        let k = lemma_first_difference(a, b, n as int);
        if a[k] < b[k] {
            assert(lex_lt(a, b));
        } else {
            assert(b.take(k) == a.take(k));
            assert(lex_lt(b, a));
        }
    }
}

/// Where two prefixes of length `n` differ, there is a first position at
/// which they do.
pub proof fn lemma_first_difference(a: Seq<u8>, b: Seq<u8>, n: int) -> (k: int)
    requires
        0 <= n <= a.len(),
        n <= b.len(),
        a.take(n) != b.take(n),
    ensures
        0 <= k < n,
        a.take(k) == b.take(k),
        a[k] != b[k],
    decreases n,
{
    if n > 0 && a.take(n - 1) != b.take(n - 1) {
        lemma_first_difference(a, b, n - 1)
    } else {
        if n == 0 {
            assert(a.take(0) =~= b.take(0));
        }
        if a[n - 1] == b[n - 1] {
            assert(a.take(n) =~= b.take(n)) by {
                assert forall|j: int| 0 <= j < n implies a.take(n)[j] == b.take(n)[j] by {
                    if j < n - 1 {
                        assert(a.take(n - 1)[j] == b.take(n - 1)[j]);
                    }
                }
            }
        }
        n - 1
    }
}

/// The order of octet strings is transitive.
pub proof fn lemma_lex_transitive(a: Seq<u8>, b: Seq<u8>, c: Seq<u8>)
    requires
        lex_lt(a, b),
        lex_lt(b, c),
    ensures
        lex_lt(a, c),
{
    let i = choose|i: int|
        0 <= i <= a.len() && i <= b.len() && a.take(i) == b.take(i) && ((i < a.len() && i < b.len()
            && a[i] < b[i]) || (i == a.len() && i < b.len()));
    let j = choose|j: int|
        0 <= j <= b.len() && j <= c.len() && b.take(j) == c.take(j) && ((j < b.len() && j < c.len()
            && b[j] < c[j]) || (j == b.len() && j < c.len()));
    let k = if i < j { i } else { j };
    assert(a.take(k) =~= c.take(k)) by {
        assert forall|m: int| 0 <= m < k implies a.take(k)[m] == c.take(k)[m] by {
            assert(a.take(i)[m] == b.take(i)[m]);
            assert(b.take(j)[m] == c.take(j)[m]);
        }
    }
    if i < j {
        assert(b.take(j)[i] == c.take(j)[i]);
    } else if j < i {
        assert(a.take(i)[j] == b.take(i)[j]);
    }
    assert(lex_lt(a, c));
}

/// No octet string sorts before itself, and two cannot sort before each
/// other.
pub proof fn lemma_lex_irreflexive(a: Seq<u8>, b: Seq<u8>)
    ensures
        !lex_lt(a, a),
        lex_lt(a, b) ==> !lex_lt(b, a),
{
    if lex_lt(a, b) && lex_lt(b, a) {
        lemma_lex_transitive(a, b, a);
    }
}

/// Whether two byte strings are equal.
pub fn slices_equal(a: &[u8], b: &[u8]) -> (r: bool)
    ensures
        r == (a@ == b@),
{
    if a.len() != b.len() {
        return false;
    }
    let mut i: usize = 0;
    while i < a.len()
        invariant
            a@.len() == b@.len(),
            i <= a@.len(),
            forall|j: int| 0 <= j < i ==> a@[j] == b@[j],
        decreases a@.len() - i,
    {
        if a[i] != b[i] {
            return false;
        }
        i = i + 1;
    }
    assert(a@ =~= b@);
    true
}

} // verus!
