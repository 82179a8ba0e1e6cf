//! Where the application key and certificate are kept.

use vstd::prelude::*;

use super::error::Error;

verus! {

/// The default path of the application key.
pub open spec fn default_key_path() -> Seq<char> {
    "/opt/fortanix/attestation-client/key.pem"@
}

/// The default path of the application certificate.
pub open spec fn default_cert_path() -> Seq<char> {
    "/opt/fortanix/attestation-client/cert.pem"@
}

/// The paths where the application key and certificate are written.
#[derive(Debug, Clone)]
pub struct AppCertMetadata {
    pub key_path: String,
    pub cert_path: String,
}

impl AppCertMetadata {
    /// The given paths, or the default ones for those not given.
    pub fn init(key_path: Option<&str>, cert_path: Option<&str>) -> (r: Result<Self, Error>)
        ensures
            r matches Ok(m) && m.key_path@ == (match key_path {
                Some(p) => p@,
                None => default_key_path(),
            }) && m.cert_path@ == (match cert_path {
                Some(p) => p@,
                None => default_cert_path(),
            }),
    {
        let key = match key_path {
            Some(p) => p.to_owned(),
            None => "/opt/fortanix/attestation-client/key.pem".to_owned(),
        };
        let cert = match cert_path {
            Some(p) => p.to_owned(),
            None => "/opt/fortanix/attestation-client/cert.pem".to_owned(),
        };
        Ok(AppCertMetadata { key_path: key, cert_path: cert })
    }
}

/// A character with the Unicode White_Space property.
pub open spec fn is_white_space(c: char) -> bool {
    let n = c as u32;
    ||| 0x09 <= n <= 0x0d
    ||| n == 0x20
    ||| n == 0x85
    ||| n == 0xa0
    ||| n == 0x1680
    ||| 0x2000 <= n <= 0x200a
    ||| n == 0x2028
    ||| n == 0x2029
    ||| n == 0x202f
    ||| n == 0x205f
    ||| n == 0x3000
}

/// `s` without its leading and trailing white space.
pub open spec fn trimmed(s: Seq<char>) -> Seq<char>
    decreases s.len(),
{
    if s.len() > 0 && is_white_space(s[0]) {
        trimmed(s.skip(1))
    } else if s.len() > 0 && is_white_space(s.last()) {
        trimmed(s.drop_last())
    } else {
        s
    }
}

/// The pieces of `s` between commas, in order; one piece when there is no
/// comma.
pub open spec fn comma_pieces(s: Seq<char>) -> Seq<Seq<char>>
    decreases s.len(),
{
    if s.len() == 0 {
        seq![Seq::empty()]
    } else {
        let rest = comma_pieces(s.skip(1));
        if s[0] == ',' {
            seq![Seq::empty()] + rest
        } else {
            rest.update(0, seq![s[0]] + rest[0])
        }
    }
}

/// The contents of a sequence of strings.
pub open spec fn texts(v: Seq<String>) -> Seq<Seq<char>> {
    v.map_values(|t: String| t@)
}

/// The names to request the application certificate for, from the value of
/// the variable that lists them: none when the value is absent or only
/// white space, else the pieces of the trimmed value between commas.
pub open spec fn alt_names_of(value: Option<Seq<char>>) -> Option<Seq<Seq<char>>> {
    match value {
        None => None,
        Some(v) => if trimmed(v).len() == 0 {
            None
        } else {
            Some(comma_pieces(trimmed(v)))
        },
    }
}

/// Whether `c` has the Unicode White_Space property.
fn is_white_space_char(c: char) -> (r: bool)
    ensures
        r == is_white_space(c),
{
    let n = c as u32;
    (0x09 <= n && n <= 0x0d) || n == 0x20 || n == 0x85 || n == 0xa0 || n == 0x1680 || (0x2000 <= n
        && n <= 0x200a) || n == 0x2028 || n == 0x2029 || n == 0x202f || n == 0x205f || n == 0x3000
}

/// `s` without its leading and trailing white space, owned.
fn trim_text(s: &str) -> (r: String)
    ensures
        r@ == trimmed(s@),
{
    let n = s.unicode_len();
    let mut i: usize = 0;
    assert(s@.subrange(0, n as int) =~= s@);
    while i < n && is_white_space_char(s.get_char(i))
        invariant
            n == s@.len(),
            i <= n,
            trimmed(s@.subrange(i as int, n as int)) == trimmed(s@),
        decreases n - i,
    {
        assert(s@.subrange(i as int, n as int).skip(1) =~= s@.subrange(i + 1, n as int));
        i = i + 1;
    }
    let mut j: usize = n;
    while j > i && is_white_space_char(s.get_char(j - 1))
        invariant
            n == s@.len(),
            i <= j <= n,
            i < n ==> !is_white_space(s@[i as int]),
            trimmed(s@.subrange(i as int, j as int)) == trimmed(s@),
        decreases j - i,
    {
        assert(j - 1 != i);
        assert(s@.subrange(i as int, j as int).drop_last() =~= s@.subrange(i as int, j - 1));
        j = j - 1;
    }
    s.substring_char(i, j).to_owned()
}

/// The pieces of `s` between commas, in order, each owned.
fn split_commas(s: &str) -> (r: Vec<String>)
    ensures
        texts(r@) == comma_pieces(s@),
{
    let n = s.unicode_len();
    let mut rest: Vec<String> = Vec::new();
    let mut end: usize = n;
    let mut i: usize = n;
    proof {
        assert(s@.skip(n as int) =~= Seq::<char>::empty());
        assert(s@.subrange(n as int, n as int) =~= Seq::<char>::empty());
        assert(texts(rest@) =~= Seq::<Seq<char>>::empty());
        assert(seq![Seq::<char>::empty()] + Seq::<Seq<char>>::empty() =~= seq![Seq::<char>::empty()]);
    }
    while i > 0
        invariant
            n == s@.len(),
            i <= end <= n,
            comma_pieces(s@.skip(i as int)) == seq![s@.subrange(i as int, end as int)] + texts(rest@),
        decreases i,
    {
        let c = s.get_char(i - 1);
        proof {
            assert(s@.skip(i - 1).skip(1) =~= s@.skip(i as int));
            assert(s@.skip(i - 1)[0] == c);
        }
        if c == ',' {
            let piece = s.substring_char(i, end).to_owned();
            let ghost old_rest = rest@;
            rest.insert(0, piece);
            proof {
                assert(texts(rest@) =~= seq![piece@] + texts(old_rest));
                assert(s@.subrange(i - 1, i - 1) =~= Seq::<char>::empty());
            }
            end = i - 1;
        } else {
            proof {
                assert(s@.subrange(i - 1, end as int) =~= seq![c] + s@.subrange(i as int, end as int));
            }
        }
        i = i - 1;
    }
    let first = s.substring_char(0, end).to_owned();
    let ghost old_rest = rest@;
    rest.insert(0, first);
    proof {
        assert(s@.skip(0) =~= s@);
        assert(texts(rest@) =~= seq![first@] + texts(old_rest));
    }
    rest
}

/// The names to request the application certificate for, from the value of
/// the variable that lists them (see [`alt_names_of`]).
pub fn alt_names(value: Option<&str>) -> (r: Option<Vec<String>>)
    ensures
        match r {
            Some(v) => alt_names_of(match value {
                Some(s) => Some(s@),
                None => None,
            }) == Some(texts(v@)),
            None => alt_names_of(match value {
                Some(s) => Some(s@),
                None => None,
            }) is None,
        },
{
    match value {
        None => None,
        Some(s) => {
            let t = trim_text(s);
            if t.as_str().is_empty() {
                None
            } else {
                Some(split_commas(t.as_str()))
            }
        },
    }
}

} // verus!
