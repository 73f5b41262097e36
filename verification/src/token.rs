use vstd::prelude::*;

verus! {

/// Byte-wise equality of two identifiers (token identifiers, addresses).
pub fn same_bytes(a: &Vec<u8>, b: &Vec<u8>) -> (res: bool)
    ensures
        res == (a@ == b@),
{
    if a.len() != b.len() {
        return false;
    }
    let mut i: usize = 0;
    while i < a.len()
        invariant
            a.len() == b.len(),
            i <= a.len(),
            forall|j: int| 0 <= j < i ==> a@[j] == b@[j],
        decreases a.len() - i,
    {
        if a[i] != b[i] {
            return false;
        }
        i = i + 1;
    }
    assert(a@ =~= b@);
    true
}

/// Length of the random suffix of a token identifier, dash included ("-abc123").
pub open spec fn token_suffix_len() -> nat {
    7
}

/// `multiversx_chain_core::token_identifier_util::get_token_ticker_len`:
/// the length of the ticker in an identifier of the given length, that is
/// the length less the six random characters and the dash. It subtracts
/// without a check, so it is only called on lengths of at least seven.
#[verifier::external_body]
fn ticker_len(token_id_len: usize) -> (res: usize)
    requires
        token_id_len >= token_suffix_len(),
    ensures
        res == token_id_len - token_suffix_len(),
{
    multiversx_chain_core::token_identifier_util::get_token_ticker_len(token_id_len)
}

/// The ticker of a token identifier ("ABC-1a2b3c" has the ticker "ABC"), or
/// `None` when the identifier is too short to hold the random suffix.
pub open spec fn spec_ticker(token: Seq<u8>) -> Option<Seq<u8>> {
    if token.len() >= token_suffix_len() {
        Some(token.take(token.len() - token_suffix_len()))
    } else {
        None
    }
}

/// The ticker of a token identifier; `None` where the identifier is shorter
/// than its random suffix.
pub fn ticker(token: &Vec<u8>) -> (res: Option<Vec<u8>>)
    ensures
        match res {
            Some(t) => spec_ticker(token@) == Some(t@),
            None => spec_ticker(token@) is None,
        },
{
    if token.len() < 7 {
        return None;
    }
    let len = ticker_len(token.len());
    let mut out: Vec<u8> = Vec::new();
    let mut i: usize = 0;
    while i < len
        invariant
            len == token@.len() - 7,
            i <= len,
            out@ =~= token@.take(i as int),
        decreases len - i,
    {
        out.push(token[i]);
        i = i + 1;
    }
    Some(out)
}

/// `prefix` followed by `suffix`.
pub fn concat(prefix: &Vec<u8>, suffix: &Vec<u8>) -> (res: Vec<u8>)
    ensures
        res@ == prefix@ + suffix@,
{
    let mut out: Vec<u8> = Vec::new();
    let mut i: usize = 0;
    while i < prefix.len()
        invariant
            i <= prefix.len(),
            out@ =~= prefix@.take(i as int),
        decreases prefix.len() - i,
    {
        out.push(prefix[i]);
        i = i + 1;
    }
    let mut j: usize = 0;
    while j < suffix.len()
        invariant
            i == prefix.len(),
            j <= suffix.len(),
            out@ =~= prefix@ + suffix@.take(j as int),
        decreases suffix.len() - j,
    {
        out.push(suffix[j]);
        j = j + 1;
    }
    assert(suffix@.take(suffix@.len() as int) =~= suffix@);
    out
}

/// A copy of a byte string.
pub fn copy_bytes(v: &Vec<u8>) -> (res: Vec<u8>)
    ensures
        res@ == v@,
{
    let mut out: Vec<u8> = Vec::new();
    let mut i: usize = 0;
    while i < v.len()
        invariant
            i <= v.len(),
            out@ =~= v@.take(i as int),
        decreases v.len() - i,
    {
        out.push(v[i]);
        i = i + 1;
    }
    assert(v@.take(v@.len() as int) =~= v@);
    out
}

} // verus!
