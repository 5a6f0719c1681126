//! The raw input cut into its comma-separated elements.
//!
//! Only the commas of the input's own level separate: one inside a group
//! belongs to that group's token.

use crate::token::{append_stream, leading_punct, stream_tokens, token_trees, Token};
use proc_macro2::TokenStream;
use vstd::prelude::*;

verus! {

/// Whether `token` is a comma, whatever follows it.
pub open spec fn is_comma(token: Token) -> bool {
    token matches Token::Punct { mark, .. } && mark == ','
}

/// The elements of `tokens`, read from the left: a comma closes the element
/// being read and opens an empty one; any other token joins the element
/// being read.
pub open spec fn elements(tokens: Seq<Token>) -> Seq<Seq<Token>>
    decreases tokens.len(),
{
    if tokens.len() == 0 {
        seq![Seq::empty()]
    } else {
        let before = elements(tokens.drop_last());
        if is_comma(tokens.last()) {
            before.push(Seq::empty())
        } else {
            before.drop_last().push(before.last().push(tokens.last()))
        }
    }
}

/// What each of a list of streams holds.
pub open spec fn stream_views(streams: Seq<TokenStream>) -> Seq<Seq<Token>> {
    Seq::new(streams.len(), |i: int| stream_tokens(streams[i]))
}

/// There is always a first element, and no element holds a comma.
pub proof fn lemma_elements_hold_no_comma(tokens: Seq<Token>)
    ensures
        elements(tokens).len() >= 1,
        forall|i: int, j: int|
            0 <= i < elements(tokens).len() && 0 <= j < elements(tokens)[i].len() ==> !is_comma(
                #[trigger] elements(tokens)[i][j],
            ),
    decreases tokens.len(),
{
    if tokens.len() > 0 {
        lemma_elements_hold_no_comma(tokens.drop_last());
    }
}

/// Cuts the input at the commas of its own level.
pub fn split_elements(input: &TokenStream) -> (parts: Vec<TokenStream>)
    ensures
        stream_views(parts@) == elements(stream_tokens(*input)),
        parts@.len() == elements(stream_tokens(*input)).len(),
        parts@.len() >= 1,
{
    let trees = token_trees(input);
    let ghost tokens = stream_tokens(*input);
    let mut parts: Vec<TokenStream> = Vec::new();
    let mut current = TokenStream::new();
    let mut at: usize = 0;
    while at < trees.len()
        invariant
            at <= trees@.len() == tokens.len(),
            forall|i: int|
                0 <= i < trees@.len() ==> stream_tokens(#[trigger] trees@[i]) == seq![tokens[i]],
            stream_views(parts@).push(stream_tokens(current)) == elements(tokens.take(at as int)),
        decreases trees@.len() - at,
    {
        let ghost read = stream_tokens(current);
        proof {
            assert(tokens.take(at + 1).drop_last() == tokens.take(at as int));
        }
        let comma = match leading_punct(&trees[at]) {
            Some(mark) => mark == ',',
            None => false,
        };
        if comma {
            parts.push(current);
            current = TokenStream::new();
        } else {
            append_stream(&mut current, &trees[at]);
            assert(stream_tokens(current) == read.push(tokens[at as int]));
        }
        at = at + 1;
    }
    proof {
        assert(tokens.take(at as int) == tokens);
    }
    parts.push(current);
    parts
}

} // verus!
