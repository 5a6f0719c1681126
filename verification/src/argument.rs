//! Arguments: the forms that are accepted, and how an element is given one.

use crate::syntax::{
    boolean_literal, integer_literal, is_boolean_literal, is_integer_literal,
    is_macro_invocation, macro_invocation, string_literal, string_literal_value,
};
use crate::token::{append_stream, stream_tokens, Token};
use proc_macro2::TokenStream;
use vstd::prelude::*;

verus! {

/// One argument of a format request. A literal or an expression keeps the
/// tokens it was written with: nothing is evaluated.
#[derive(Debug)]
pub enum Argument {
    /// An integer literal.
    IntegerLiteral(TokenStream),
    /// A string literal.
    StringLiteral(TokenStream),
    /// `true` or `false`.
    BooleanLiteral(TokenStream),
    /// A macro invocation, left for the compiler to expand.
    OpaqueExpression(TokenStream),
    /// Stands behind the last segment of a template, where no argument
    /// follows. It holds no token.
    Filler,
}

/// An argument as contracts speak of it.
pub enum ArgumentView {
    IntegerLiteral(Seq<Token>),
    StringLiteral(Seq<Token>),
    BooleanLiteral(Seq<Token>),
    OpaqueExpression(Seq<Token>),
    Filler,
}

impl ArgumentView {
    /// The tokens that the argument puts into the output.
    pub open spec fn tokens(self) -> Seq<Token> {
        match self {
            ArgumentView::IntegerLiteral(tokens) => tokens,
            ArgumentView::StringLiteral(tokens) => tokens,
            ArgumentView::BooleanLiteral(tokens) => tokens,
            ArgumentView::OpaqueExpression(tokens) => tokens,
            ArgumentView::Filler => Seq::empty(),
        }
    }
}

impl View for Argument {
    type V = ArgumentView;

    open spec fn view(&self) -> ArgumentView {
        match *self {
            Argument::IntegerLiteral(tokens) => ArgumentView::IntegerLiteral(stream_tokens(tokens)),
            Argument::StringLiteral(tokens) => ArgumentView::StringLiteral(stream_tokens(tokens)),
            Argument::BooleanLiteral(tokens) => ArgumentView::BooleanLiteral(stream_tokens(tokens)),
            Argument::OpaqueExpression(tokens) => ArgumentView::OpaqueExpression(
                stream_tokens(tokens),
            ),
            Argument::Filler => ArgumentView::Filler,
        }
    }
}

/// The view of an argument that may be there.
pub open spec fn view_of(argument: Option<Argument>) -> Option<ArgumentView> {
    match argument {
        Some(argument) => Some(argument@),
        None => None,
    }
}

/// The form given to an element of which the four parsers said `integer`,
/// `string`, `boolean` and `invocation`: the first that said yes decides, in
/// this order; none where all said no.
pub open spec fn accepted(
    element: Seq<Token>,
    integer: bool,
    string: bool,
    boolean: bool,
    invocation: bool,
) -> Option<ArgumentView> {
    if integer {
        Some(ArgumentView::IntegerLiteral(element))
    } else if string {
        Some(ArgumentView::StringLiteral(element))
    } else if boolean {
        Some(ArgumentView::BooleanLiteral(element))
    } else if invocation {
        Some(ArgumentView::OpaqueExpression(element))
    } else {
        None
    }
}

/// The argument that `element` is, if it has one of the accepted forms.
pub open spec fn classified(element: Seq<Token>) -> Option<ArgumentView> {
    accepted(
        element,
        is_integer_literal(element),
        string_literal_value(element) is Some,
        is_boolean_literal(element),
        is_macro_invocation(element),
    )
}

impl Clone for Argument {
    /// A copy with the same form and the same tokens.
    fn clone(&self) -> (copy: Argument)
        ensures
            copy@ == self@,
    {
        match self {
            Argument::IntegerLiteral(tokens) => Argument::IntegerLiteral(tokens.clone()),
            Argument::StringLiteral(tokens) => Argument::StringLiteral(tokens.clone()),
            Argument::BooleanLiteral(tokens) => Argument::BooleanLiteral(tokens.clone()),
            Argument::OpaqueExpression(tokens) => Argument::OpaqueExpression(tokens.clone()),
            Argument::Filler => Argument::Filler,
        }
    }
}

impl Argument {
    /// Gives `element` its form from what the four parsers said of it.
    pub fn of_shape(
        element: TokenStream,
        integer: bool,
        string: bool,
        boolean: bool,
        invocation: bool,
    ) -> (argument: Option<Argument>)
        ensures
            view_of(argument) == accepted(
                stream_tokens(element),
                integer,
                string,
                boolean,
                invocation,
            ),
    {
        if integer {
            Some(Argument::IntegerLiteral(element))
        } else if string {
            Some(Argument::StringLiteral(element))
        } else if boolean {
            Some(Argument::BooleanLiteral(element))
        } else if invocation {
            Some(Argument::OpaqueExpression(element))
        } else {
            None
        }
    }

    /// Classifies one element: an integer, string or boolean literal, or a
    /// macro invocation; anything else is no argument. The forms are tried
    /// in this order, and no further than the first that fits.
    pub fn classify(element: &TokenStream) -> (argument: Option<Argument>)
        ensures
            view_of(argument) == classified(stream_tokens(*element)),
    {
        let integer = integer_literal(element);
        let string = !integer && string_literal(element).is_some();
        let boolean = !integer && !string && boolean_literal(element);
        let invocation = !integer && !string && !boolean && macro_invocation(element);
        Argument::of_shape(element.clone(), integer, string, boolean, invocation)
    }

    /// Appends the argument to `target` as it was written; the filler adds
    /// nothing.
    pub fn to_tokens(&self, target: &mut TokenStream)
        ensures
            stream_tokens(*final(target)) == stream_tokens(*old(target)) + self@.tokens(),
    {
        match self {
            Argument::IntegerLiteral(tokens) => append_stream(target, tokens),
            Argument::StringLiteral(tokens) => append_stream(target, tokens),
            Argument::BooleanLiteral(tokens) => append_stream(target, tokens),
            Argument::OpaqueExpression(tokens) => append_stream(target, tokens),
            Argument::Filler => {},
        }
    }
}

} // verus!
