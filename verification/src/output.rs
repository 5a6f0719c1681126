//! The output: a request written as one `concat!` invocation, a fault
//! written as one `compile_error!` invocation, and the raw input of the
//! macro expanded from end to end.

use crate::elements::{elements, split_elements};
use crate::error::FormatError;
use crate::format::{fragment_views, parsed, Format, Fragment, FragmentView};
use crate::syntax::{compile_error_invocation, failure};
use crate::token::{
    push_group, push_ident, push_punct, push_string_literal, stream_tokens,
    string_literal_repr, Delimiter, Token,
};
use proc_macro2::TokenStream;
use vstd::prelude::*;

verus! {

/// The comma that separates what `concat!` is given.
pub open spec fn comma() -> Token {
    Token::Punct { mark: ',', joint: false }
}

/// The tokens of one fragment: the segment as a string literal, a comma, the
/// argument.
pub open spec fn fragment_tokens(fragment: FragmentView) -> Seq<Token> {
    seq![Token::Literal { repr: string_literal_repr(fragment.literal) }, comma()]
        + fragment.argument.tokens()
}

/// The tokens of the fragments in order, a comma between each two.
pub open spec fn joined(fragments: Seq<FragmentView>) -> Seq<Token>
    decreases fragments.len(),
{
    if fragments.len() == 0 {
        Seq::empty()
    } else if fragments.len() == 1 {
        fragment_tokens(fragments[0])
    } else {
        joined(fragments.drop_last()) + seq![comma()] + fragment_tokens(fragments.last())
    }
}

/// `concat ! ( ... )` around the joined fragments.
pub open spec fn concat_invocation(fragments: Seq<FragmentView>) -> Seq<Token> {
    seq![
        Token::Ident { name: "concat"@ },
        Token::Punct { mark: '!', joint: false },
        Token::Group { delimiter: Delimiter::Parenthesis, inner: joined(fragments) },
    ]
}

/// What the raw input `tokens` expands to: the invocation of `concat!`
/// with the fragments of the request, or the invocation of `compile_error!`
/// with the message of the fault that parsing found.
pub open spec fn expanded(tokens: Seq<Token>) -> Seq<Token> {
    match parsed(tokens) {
        Ok(request) => concat_invocation(request.fragments()),
        Err(fault) => compile_error_invocation(fault.message_text()),
    }
}

/// Writes the fragments as one `concat!` invocation: each segment as a
/// string literal, then its argument, all separated by commas.
pub fn concatenation(fragments: &Vec<Fragment>) -> (output: TokenStream)
    ensures
        stream_tokens(output) == concat_invocation(fragment_views(fragments@)),
{
    let ghost views = fragment_views(fragments@);
    let mut inner = TokenStream::new();
    let mut at: usize = 0;
    while at < fragments.len()
        invariant
            at <= fragments@.len(),
            views == fragment_views(fragments@),
            stream_tokens(inner) == joined(views.take(at as int)),
        decreases fragments@.len() - at,
    {
        proof {
            assert(views.take(at + 1).drop_last() == views.take(at as int));
        }
        if at > 0 {
            push_punct(&mut inner, ',');
        }
        push_string_literal(&mut inner, fragments[at].literal.as_str());
        push_punct(&mut inner, ',');
        fragments[at].argument.to_tokens(&mut inner);
        at = at + 1;
    }
    proof {
        assert(views.take(at as int) == views);
        reveal_strlit("concat");
    }
    let mut output = TokenStream::new();
    push_ident(&mut output, "concat");
    push_punct(&mut output, '!');
    push_group(&mut output, Delimiter::Parenthesis, inner);
    output
}

impl Format {
    /// The request as one `concat!` invocation.
    pub fn tokens(self) -> (output: TokenStream)
        ensures
            stream_tokens(output) == concat_invocation(self@.fragments()),
    {
        concatenation(&self.fragments())
    }
}

impl FormatError {
    /// The tokens of the raw input `tokens` that this error is about: the
    /// element that should have been the template, or the element that is
    /// no argument. A wrong count is about the input as a whole, and an
    /// element that the input does not have about nothing.
    pub open spec fn culprit_tokens(self, tokens: Seq<Token>) -> Seq<Token> {
        match self {
            FormatError::MissingTemplate => elements(tokens)[0],
            FormatError::InvalidArgument { index } => if index + 1 < elements(tokens).len() {
                elements(tokens)[index + 1]
            } else {
                Seq::empty()
            },
            FormatError::ArityMismatch { .. } => Seq::empty(),
        }
    }

    /// The tokens of `input` to point at when telling this error; none where
    /// the call as a whole is at fault.
    pub fn culprit(&self, input: &TokenStream) -> (tokens: TokenStream)
        ensures
            stream_tokens(tokens) == self.culprit_tokens(stream_tokens(*input)),
    {
        let mut parts = split_elements(input);
        let at: usize = match self {
            FormatError::MissingTemplate => 0,
            FormatError::InvalidArgument { index } => if *index < parts.len() - 1 {
                *index + 1
            } else {
                return TokenStream::new();
            },
            FormatError::ArityMismatch { .. } => {
                return TokenStream::new();
            },
        };
        parts.swap_remove(at)
    }

    /// This error as tokens that make the compiler tell it, at the place of
    /// the tokens of `input` that it is about.
    pub fn to_compile_error(&self, input: &TokenStream) -> (output: TokenStream)
        ensures
            stream_tokens(output) == compile_error_invocation(self.message_text()),
    {
        let culprit = self.culprit(input);
        let message = self.message();
        failure(&culprit, message.as_str())
    }
}

/// Expands the raw input of the macro: a template and its arguments become
/// one `concat!` invocation; a fault becomes the `compile_error!` invocation
/// that tells it.
pub fn const_format(input: TokenStream) -> (output: TokenStream)
    ensures
        stream_tokens(output) == expanded(stream_tokens(input)),
{
    match Format::parse(input.clone()) {
        Ok(request) => request.tokens(),
        Err(fault) => fault.to_compile_error(&input),
    }
}

} // verus!
