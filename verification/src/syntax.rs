//! What `syn` makes of an element: the four forms that an argument can take
//! are told apart by its parsers, not by this library.
//!
//! Each parser is asked for a whole element: tokens left over after the form
//! make the answer "no". What a parser answers depends on the tokens alone,
//! so each answer has a name that contracts can speak of. The contracts of
//! the functions that ask are taken on trust.

use crate::token::{stream_tokens, string_literal_repr, Delimiter, Token};
use proc_macro2::TokenStream;
use vstd::prelude::*;

verus! {

/// What `syn::parse2::<LitStr>` and `LitStr::value` make of `element`: the
/// text that it denotes if it is one string literal.
pub uninterp spec fn string_literal_value(element: Seq<Token>) -> Option<Seq<char>>;

/// Whether `syn::parse2::<LitInt>` takes `element`: whether it is one
/// integer literal.
pub uninterp spec fn is_integer_literal(element: Seq<Token>) -> bool;

/// Whether `syn::parse2::<LitBool>` takes `element`: whether it is `true`
/// or `false`.
pub uninterp spec fn is_boolean_literal(element: Seq<Token>) -> bool;

/// Whether `syn::parse2::<Expr>` makes `Expr::Macro` of `element`: whether
/// it is one expression, and that expression a macro invocation.
pub uninterp spec fn is_macro_invocation(element: Seq<Token>) -> bool;

/// The text of a string that may be there.
pub open spec fn text_of(value: Option<String>) -> Option<Seq<char>> {
    match value {
        Some(text) => Some(text@),
        None => None,
    }
}

/// `syn::parse2::<LitStr>` on the element, then `LitStr::value`: the text
/// that the literal denotes, escapes resolved; `None` where the element is
/// not one string literal.
#[verifier::external_body]
pub(crate) fn string_literal(element: &TokenStream) -> (value: Option<String>)
    ensures
        text_of(value) == string_literal_value(stream_tokens(*element)),
{
    match syn::parse2::<syn::LitStr>(element.clone()) {
        Ok(literal) => Some(literal.value()),
        Err(_) => None,
    }
}

/// `syn::parse2::<LitInt>` on the element: whether it succeeds.
#[verifier::external_body]
pub(crate) fn integer_literal(element: &TokenStream) -> (found: bool)
    ensures
        found == is_integer_literal(stream_tokens(*element)),
{
    syn::parse2::<syn::LitInt>(element.clone()).is_ok()
}

/// `syn::parse2::<LitBool>` on the element: whether it succeeds.
#[verifier::external_body]
pub(crate) fn boolean_literal(element: &TokenStream) -> (found: bool)
    ensures
        found == is_boolean_literal(stream_tokens(*element)),
{
    syn::parse2::<syn::LitBool>(element.clone()).is_ok()
}

/// `syn::parse2::<Expr>` on the element: whether it gives `Expr::Macro`.
#[verifier::external_body]
pub(crate) fn macro_invocation(element: &TokenStream) -> (found: bool)
    ensures
        found == is_macro_invocation(stream_tokens(*element)),
{
    matches!(syn::parse2::<syn::Expr>(element.clone()), Ok(syn::Expr::Macro(_)))
}

/// The tokens that make the compiler fail with `message`:
/// `::core::compile_error! { "message" }`.
pub open spec fn compile_error_invocation(message: Seq<char>) -> Seq<Token> {
    seq![
        Token::Punct { mark: ':', joint: true },
        Token::Punct { mark: ':', joint: false },
        Token::Ident { name: "core"@ },
        Token::Punct { mark: ':', joint: true },
        Token::Punct { mark: ':', joint: false },
        Token::Ident { name: "compile_error"@ },
        Token::Punct { mark: '!', joint: false },
        Token::Group {
            delimiter: Delimiter::Brace,
            inner: seq![Token::Literal { repr: string_literal_repr(message) }],
        },
    ]
}

/// `syn::Error::new_spanned` on the culprit and the message, then
/// `Error::to_compile_error`: an invocation of `compile_error!` with the
/// message as its one string literal. The culprit gives the invocation its
/// place in the source, and nothing else.
#[verifier::external_body]
pub(crate) fn failure(culprit: &TokenStream, message: &str) -> (output: TokenStream)
    ensures
        stream_tokens(output) == compile_error_invocation(message@),
{
    syn::Error::new_spanned(culprit, message).to_compile_error()
}

} // verus!
