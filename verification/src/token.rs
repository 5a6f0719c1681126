//! Token streams as the library sees them: a sequence of token trees, spans
//! left out.
//!
//! The streams themselves are `proc_macro2::TokenStream`. The library never
//! looks inside one: it reads and builds streams through the functions of
//! this module, which call `proc_macro2` and `quote` and whose contracts are
//! taken on trust, and it states what it does with streams over
//! [`stream_tokens`].

use proc_macro2::{Group, Ident, Punct, Spacing, Span, TokenStream, TokenTree};
use quote::{ToTokens, TokenStreamExt};
use vstd::prelude::*;

verus! {

#[verifier::external_type_specification]
#[verifier::external_body]
pub struct ExTokenStream(proc_macro2::TokenStream);

/// How a group of tokens is enclosed.
#[derive(Clone, Copy, Debug, PartialEq, Eq, Structural)]
pub enum Delimiter {
    /// `( ... )`
    Parenthesis,
    /// `{ ... }`
    Brace,
    /// `[ ... ]`
    Bracket,
    /// No visible delimiter, as around what a macro variable stood for.
    Invisible,
}

/// One token tree, as contracts speak of it.
pub enum Token {
    /// A delimited stream.
    Group { delimiter: Delimiter, inner: Seq<Token> },
    /// A word: an identifier or a keyword.
    Ident { name: Seq<char> },
    /// One punctuation character; `joint` when the next punctuation
    /// character follows it directly.
    Punct { mark: char, joint: bool },
    /// A literal, by the text that denotes it.
    Literal { repr: Seq<char> },
}

/// The token trees that a stream holds, in the order in which
/// `TokenStream::into_iter` hands them out.
pub uninterp spec fn stream_tokens(stream: TokenStream) -> Seq<Token>;

/// The source text of the string literal that `Literal::string` makes of
/// `text`: quoted and escaped.
pub uninterp spec fn string_literal_repr(text: Seq<char>) -> Seq<char>;

/// The punctuation character of a token, if it is one.
pub open spec fn punct_mark(token: Token) -> Option<char> {
    match token {
        Token::Punct { mark, .. } => Some(mark),
        _ => None,
    }
}

/// The punctuation character that `tokens` starts with, if any.
pub open spec fn leading_mark(tokens: Seq<Token>) -> Option<char> {
    if tokens.len() > 0 {
        punct_mark(tokens[0])
    } else {
        None
    }
}

/// The characters that can stand as punctuation in a token stream.
pub open spec fn is_punctuation(mark: char) -> bool {
    ||| mark == '!'
    ||| mark == '#'
    ||| mark == '$'
    ||| mark == '%'
    ||| mark == '&'
    ||| mark == '\''
    ||| mark == '*'
    ||| mark == '+'
    ||| mark == ','
    ||| mark == '-'
    ||| mark == '.'
    ||| mark == '/'
    ||| mark == ':'
    ||| mark == ';'
    ||| mark == '<'
    ||| mark == '='
    ||| mark == '>'
    ||| mark == '?'
    ||| mark == '@'
    ||| mark == '^'
    ||| mark == '|'
    ||| mark == '~'
}

/// An ASCII letter.
pub open spec fn is_letter(c: char) -> bool {
    ('a' <= c && c <= 'z') || ('A' <= c && c <= 'Z')
}

/// A word that every token stream takes as an identifier: an ASCII letter,
/// then ASCII letters, digits and underscores.
pub open spec fn is_plain_word(name: Seq<char>) -> bool {
    &&& name.len() > 0
    &&& is_letter(name[0])
    &&& forall|i: int|
        0 <= i < name.len() ==> is_letter(#[trigger] name[i]) || ('0' <= name[i] && name[i] <= '9')
            || name[i] == '_'
}

/// `TokenStream::new` makes a stream that holds no token.
pub assume_specification[ proc_macro2::TokenStream::new ]() -> (stream: TokenStream)
    ensures
        stream_tokens(stream) == Seq::<Token>::empty(),
;

/// `TokenStream::clone` gives a stream of the same tokens.
pub assume_specification[ <proc_macro2::TokenStream as Clone>::clone ](
    stream: &TokenStream,
) -> (copy: TokenStream)
    ensures
        stream_tokens(copy) == stream_tokens(*stream),
;

/// `TokenStream::into_iter` walks the token trees of a stream in order; each
/// is handed out as a stream of its own, made by `TokenStream::from`.
#[verifier::external_body]
pub(crate) fn token_trees(stream: &TokenStream) -> (trees: Vec<TokenStream>)
    ensures
        trees@.len() == stream_tokens(*stream).len(),
        forall|i: int|
            0 <= i < trees@.len() ==> stream_tokens(#[trigger] trees@[i]) == seq![
                stream_tokens(*stream)[i],
            ],
{
    stream.clone().into_iter().map(TokenStream::from).collect()
}

/// `Punct::as_char` of the first token tree of a stream: `None` where the
/// stream is empty or starts with another kind of token.
#[verifier::external_body]
pub(crate) fn leading_punct(stream: &TokenStream) -> (mark: Option<char>)
    ensures
        mark == leading_mark(stream_tokens(*stream)),
{
    match stream.clone().into_iter().next() {
        Some(TokenTree::Punct(punct)) => Some(punct.as_char()),
        _ => None,
    }
}

/// `ToTokens::to_tokens` of a stream appends its tokens to the target.
#[verifier::external_body]
pub(crate) fn append_stream(target: &mut TokenStream, more: &TokenStream)
    ensures
        stream_tokens(*final(target)) == stream_tokens(*old(target)) + stream_tokens(*more),
{
    more.to_tokens(target)
}

/// `ToTokens::to_tokens` of a `str` appends one token, the string literal
/// that `Literal::string` makes of it.
#[verifier::external_body]
pub(crate) fn push_string_literal(target: &mut TokenStream, text: &str)
    ensures
        stream_tokens(*final(target)) == stream_tokens(*old(target)).push(
            Token::Literal { repr: string_literal_repr(text@) },
        ),
{
    text.to_tokens(target)
}

/// `Punct::new` with `Spacing::Alone`, appended to the target. It panics on
/// a character that is no punctuation, hence the `requires`.
#[verifier::external_body]
pub(crate) fn push_punct(target: &mut TokenStream, mark: char)
    requires
        is_punctuation(mark),
    ensures
        stream_tokens(*final(target)) == stream_tokens(*old(target)).push(
            Token::Punct { mark, joint: false },
        ),
{
    target.append(Punct::new(mark, Spacing::Alone))
}

/// `Ident::new` at the call site, appended to the target. It panics on a
/// word that is no identifier, hence the `requires`.
#[verifier::external_body]
pub(crate) fn push_ident(target: &mut TokenStream, name: &str)
    requires
        is_plain_word(name@),
    ensures
        stream_tokens(*final(target)) == stream_tokens(*old(target)).push(
            Token::Ident { name: name@ },
        ),
{
    target.append(Ident::new(name, Span::call_site()))
}

/// `Group::new` around `inner`, appended to the target.
#[verifier::external_body]
pub(crate) fn push_group(target: &mut TokenStream, delimiter: Delimiter, inner: TokenStream)
    ensures
        stream_tokens(*final(target)) == stream_tokens(*old(target)).push(
            Token::Group { delimiter, inner: stream_tokens(inner) },
        ),
{
    let delimiter = match delimiter {
        Delimiter::Parenthesis => proc_macro2::Delimiter::Parenthesis,
        Delimiter::Brace => proc_macro2::Delimiter::Brace,
        Delimiter::Bracket => proc_macro2::Delimiter::Bracket,
        Delimiter::Invisible => proc_macro2::Delimiter::None,
    };
    target.append(Group::new(delimiter, inner))
}

} // verus!
