use vstd::prelude::*;

verus! {

/// What base-58 decoding (with the Bitcoin alphabet) yields for a given
/// string: the decoded bytes, or nothing when the string is not valid
/// base-58. The result depends on the characters of the string alone.
pub uninterp spec fn base58_decoded(s: Seq<char>) -> Option<Seq<u8>>;

/// Relies on `bs58::decode(..).into_vec()`: decodes a base-58 string
/// (default Bitcoin alphabet) into its byte payload, failing exactly on
/// strings that are not valid base-58.
#[verifier::external_body]
pub(crate) fn base58_decode(s: &String) -> (r: Option<Vec<u8>>)
    ensures
        match r {
            Some(v) => base58_decoded(s@) == Some(v@),
            None => base58_decoded(s@) is None,
        },
{
    match bs58::decode(s.as_str()).into_vec() {
        Ok(v) => Some(v),
        Err(_) => None,
    }
}

} // verus!
