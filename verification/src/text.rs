//! Error texts that carry the debug form of an underlying error.

use vstd::prelude::*;

verus! {

/// The text `context`, then " : ", then anything.
pub open spec fn starts_with_context(text: Seq<char>, context: Seq<char>) -> bool {
    &&& text.len() >= context.len() + 3
    &&& text.subrange(0, context.len() as int) == context
    &&& text.subrange(context.len() as int, context.len() as int + 3) == seq![' ', ':', ' ']
}

/// `format!("{} : {:?}", context, detail)`. Claimed: the text starts with
/// `context` and " : "; nothing is claimed of the debug form after it.
#[verifier::external_body]
pub(crate) fn with_detail<T: std::fmt::Debug>(context: &str, detail: &T) -> (r: String)
    ensures
        starts_with_context(r@, context@),
{
    format!("{} : {:?}", context, detail)
}

/// `format!("{} : {}", context, text)`. Claimed: the two texts joined by
/// " : ".
#[verifier::external_body]
pub(crate) fn with_text(context: &str, text: &str) -> (r: String)
    ensures
        r@ == context@ + seq![' ', ':', ' '] + text@,
{
    format!("{} : {}", context, text)
}

/// A text joined as [`with_text`] joins it starts with its context.
pub proof fn lemma_joined_starts_with_context(context: Seq<char>, text: Seq<char>)
    ensures
        starts_with_context(context + seq![' ', ':', ' '] + text, context),
{
    let m = context + seq![' ', ':', ' '] + text;
    assert(m.subrange(0, context.len() as int) =~= context);
    assert(m.subrange(context.len() as int, context.len() as int + 3) =~= seq![' ', ':', ' ']);
}

/// `context`, " : " and `text` joined, as [`with_text`] joins them.
pub fn join_context(context: &str, text: &str) -> (r: String)
    ensures
        r@ == context@ + seq![' ', ':', ' '] + text@,
        starts_with_context(r@, context@),
{
    let r = with_text(context, text);
    proof {
        lemma_joined_starts_with_context(context@, text@);
    }
    r
}

/// The decimal digits of `n`, without leading zeros.
pub open spec fn decimal(n: nat) -> Seq<char>
    decreases n,
{
    if n < 10 {
        seq![(48 + n) as char]
    } else {
        decimal(n / 10).push((48 + n % 10) as char)
    }
}

/// The lower-case hexadecimal digits of `n`, without leading zeros.
pub open spec fn hex(n: nat) -> Seq<char>
    decreases n,
{
    if n < 16 {
        seq![hex_digit(n)]
    } else {
        hex(n / 16).push(hex_digit(n % 16))
    }
}

/// The lower-case hexadecimal digit of `d`, below 16.
pub open spec fn hex_digit(d: nat) -> char {
    if d < 10 {
        (48 + d) as char
    } else {
        (87 + d) as char
    }
}

/// The arcs of an OID in decimal, separated by ", ".
pub open spec fn arcs_text(arcs: Seq<u64>) -> Seq<char>
    decreases arcs.len(),
{
    if arcs.len() == 0 {
        Seq::empty()
    } else if arcs.len() == 1 {
        decimal(arcs[0] as nat)
    } else {
        arcs_text(arcs.drop_last()) + ", "@ + decimal(arcs.last() as nat)
    }
}

} // verus!
