//! Token counting through the cl100k_base byte-pair encoding.

use vstd::prelude::*;

verus! {

/// The number of tokens the cl100k_base encoding assigns to a text. The
/// count is a function of the characters alone.
pub uninterp spec fn token_count(s: Seq<char>) -> nat;

/// Relies on tiktoken_rs::cl100k_base_singleton and
/// CoreBPE::encode_with_special_tokens, which turn the text into its token
/// list; the length of that list depends on the text alone, and is zero
/// exactly for the empty text (the byte-pair encoding covers every byte).
#[verifier::external_body]
pub fn tokens_len(s: &str) -> (n: usize)
    ensures
        n as nat == token_count(s@),
        n == 0 <==> s@.len() == 0,
{
    let bpe = tiktoken_rs::cl100k_base_singleton();
    bpe.encode_with_special_tokens(s).len()
}

} // verus!
