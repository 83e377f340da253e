//! Token counting with the `cl100k_base` byte-pair encoding.

use vstd::prelude::*;

verus! {

/// The number of tokens that the `cl100k_base` encoding, with its special
/// tokens allowed, gives for `text`; `None` when the encoder gives up on the
/// text. The vocabulary is fixed when the library is built, so the count
/// depends on the text alone.
pub uninterp spec fn cl100k_token_count(text: Seq<char>) -> Option<usize>;

/// Counts the tokens of `text`. Trusted: stands for `CoreBPE::count` on the
/// shared `cl100k_base` encoder with every special token allowed, which is
/// the length of what `encode_with_special_tokens` returns, and an error
/// where that would not return.
#[verifier::external_body]
pub(crate) fn count_tokens(text: &str) -> (count: Option<usize>)
    ensures
        count == cl100k_token_count(text@),
{
    let encoder = tiktoken_rs::cl100k_base_singleton();
    encoder.count(text, &encoder.special_tokens()).ok()
}

/// The number of tokens of `text`, if the encoder gives one.
pub fn token_count(text: &str) -> (count: Option<usize>)
    ensures
        count == cl100k_token_count(text@),
{
    count_tokens(text)
}

} // verus!
