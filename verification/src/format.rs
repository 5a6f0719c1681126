//! The format request: a template and its arguments, checked against each
//! other.

use crate::argument::{classified, Argument, ArgumentView};
use crate::elements::{elements, split_elements, stream_views};
use crate::error::FormatError;
use crate::syntax::{string_literal, string_literal_value};
use crate::template::{segments, Template};
use crate::token::{stream_tokens, Token};
use proc_macro2::TokenStream;
use vstd::prelude::*;

verus! {

/// One piece of the output: a literal segment and the argument that follows
/// it.
#[derive(Debug)]
pub struct Fragment {
    pub literal: String,
    pub argument: Argument,
}

/// A fragment as contracts speak of it.
pub struct FragmentView {
    pub literal: Seq<char>,
    pub argument: ArgumentView,
}

impl View for Fragment {
    type V = FragmentView;

    open spec fn view(&self) -> FragmentView {
        FragmentView { literal: self.literal@, argument: self.argument@ }
    }
}

/// The views of a list of fragments.
pub open spec fn fragment_views(fragments: Seq<Fragment>) -> Seq<FragmentView> {
    Seq::new(fragments.len(), |i: int| fragments[i]@)
}

/// The views of a list of arguments.
pub open spec fn argument_views(arguments: Seq<Argument>) -> Seq<ArgumentView> {
    Seq::new(arguments.len(), |i: int| arguments[i]@)
}

/// A format request as contracts speak of it: the segments of the template
/// and, one for each segment, the arguments.
pub struct FormatView {
    pub segments: Seq<Seq<char>>,
    pub arguments: Seq<ArgumentView>,
}

impl FormatView {
    /// Every segment has its argument, and the last argument is the filler.
    pub open spec fn well_formed(self) -> bool {
        &&& self.segments.len() >= 1
        &&& self.arguments.len() == self.segments.len()
        &&& self.arguments.last() == ArgumentView::Filler
    }

    /// Segment and argument, pair by pair, in the order of the template.
    pub open spec fn fragments(self) -> Seq<FragmentView> {
        Seq::new(
            self.segments.len(),
            |i: int| FragmentView { literal: self.segments[i], argument: self.arguments[i] },
        )
    }
}

/// The request that `segments` and the arguments of the user make: one
/// argument for each marker, the filler behind them. Any other count is
/// refused, and told without the filler.
pub open spec fn validated(segments: Seq<Seq<char>>, arguments: Seq<ArgumentView>) -> Result<
    FormatView,
    FormatError,
> {
    if arguments.len() + 1 == segments.len() {
        Ok(FormatView { segments, arguments: arguments.push(ArgumentView::Filler) })
    } else {
        Err(
            FormatError::ArityMismatch {
                expected: (segments.len() - 1) as usize,
                found: arguments.len() as usize,
            },
        )
    }
}

/// The position of the leftmost element that is no argument, if there is
/// one.
pub open spec fn first_rejected(elements: Seq<Seq<Token>>) -> Option<int>
    decreases elements.len(),
{
    if elements.len() == 0 {
        None
    } else if classified(elements[0]) is None {
        Some(0)
    } else {
        match first_rejected(elements.drop_first()) {
            Some(at) => Some(at + 1),
            None => None,
        }
    }
}

/// The arguments that the elements are, where each is one.
pub open spec fn classified_all(elements: Seq<Seq<Token>>) -> Seq<ArgumentView> {
    Seq::new(elements.len(), |i: int| classified(elements[i])->0)
}

/// What parsing makes of the raw input `tokens`. The first element must be
/// one string literal, the template. Every other element must be an
/// argument: the leftmost that is none is reported, whatever the count. Then
/// the count is checked.
pub open spec fn parsed(tokens: Seq<Token>) -> Result<FormatView, FormatError> {
    let parts = elements(tokens);
    match string_literal_value(parts[0]) {
        None => Err(FormatError::MissingTemplate),
        Some(text) => match first_rejected(parts.skip(1)) {
            Some(index) => Err(FormatError::InvalidArgument { index: index as usize }),
            None => validated(segments(text), classified_all(parts.skip(1))),
        },
    }
}

/// The view of a request that may have been refused.
pub open spec fn request_view(request: Result<Format, FormatError>) -> Result<
    FormatView,
    FormatError,
> {
    match request {
        Ok(format) => Ok(format@),
        Err(fault) => Err(fault),
    }
}

/// What `first_rejected` finds is no argument, and every element before it
/// is one; where it finds nothing, every element is an argument.
pub proof fn lemma_first_rejected_is_leftmost(elements: Seq<Seq<Token>>)
    ensures
        match first_rejected(elements) {
            Some(at) => {
                &&& 0 <= at < elements.len()
                &&& classified(elements[at]) is None
                &&& forall|i: int| 0 <= i < at ==> classified(#[trigger] elements[i]) is Some
            },
            None => forall|i: int|
                0 <= i < elements.len() ==> classified(#[trigger] elements[i]) is Some,
        },
    decreases elements.len(),
{
    if elements.len() > 0 && classified(elements[0]) is Some {
        let rest = elements.drop_first();
        lemma_first_rejected_is_leftmost(rest);
        match first_rejected(rest) {
            Some(at) => {
                assert forall|i: int| 0 <= i < at + 1 implies classified(
                    #[trigger] elements[i],
                ) is Some by {
                    if i > 0 {
                        assert(elements[i] == rest[i - 1]);
                    }
                }
            },
            None => {
                assert forall|i: int| 0 <= i < elements.len() implies classified(
                    #[trigger] elements[i],
                ) is Some by {
                    if i > 0 {
                        assert(elements[i] == rest[i - 1]);
                    }
                }
            },
        }
    }
}

/// A validated format request.
#[derive(Debug)]
pub struct Format {
    template: Template,
    arguments: Vec<Argument>,
}

impl View for Format {
    type V = FormatView;

    closed spec fn view(&self) -> FormatView {
        FormatView { segments: self.template@, arguments: argument_views(self.arguments@) }
    }
}

impl Format {
    #[verifier::type_invariant]
    spec fn well_formed(&self) -> bool {
        self@.well_formed()
    }

    /// Puts the filler behind the arguments of the user and checks the
    /// count: one argument for each segment.
    pub fn new(template: Template, arguments: Vec<Argument>) -> (request: Result<
        Format,
        FormatError,
    >)
        ensures
            request_view(request) == validated(template@, argument_views(arguments@)),
    {
        let ghost given = argument_views(arguments@);
        let mut arguments = arguments;
        arguments.push(Argument::Filler);
        assert(argument_views(arguments@) == given.push(ArgumentView::Filler));
        if arguments.len() != template.len() {
            return Err(
                FormatError::ArityMismatch {
                    expected: template.len() - 1,
                    found: arguments.len() - 1,
                },
            );
        }
        Ok(Format { template, arguments })
    }

    /// Parses the raw input: a string literal, then after each comma one
    /// argument.
    pub fn parse(input: TokenStream) -> (request: Result<Format, FormatError>)
        ensures
            request_view(request) == parsed(stream_tokens(input)),
    {
        let parts = split_elements(&input);
        let ghost rest = stream_views(parts@).skip(1);
        proof {
        }
        let text = match string_literal(&parts[0]) {
            Some(text) => text,
            None => {
                return Err(FormatError::MissingTemplate);
            },
        };
        let template = Template::parse(text.as_str());
        let mut arguments: Vec<Argument> = Vec::new();
        let mut at: usize = 1;
        while at < parts.len()
            invariant
                1 <= at <= parts@.len(),
                stream_views(parts@) == elements(stream_tokens(input)),
                string_literal_value(stream_views(parts@)[0]) is Some,
                rest == stream_views(parts@).skip(1),
                arguments@.len() == at - 1,
                forall|i: int|
                    0 <= i < at - 1 ==> classified(#[trigger] rest[i]) == Some(arguments@[i]@),
            decreases parts@.len() - at,
        {
            match Argument::classify(&parts[at]) {
                Some(argument) => {
                    arguments.push(argument);
                },
                None => {
                    proof {
                        lemma_first_rejected_is_leftmost(rest);
                        assert(rest[at - 1] == stream_tokens(parts@[at as int]));
                    }
                    return Err(FormatError::InvalidArgument { index: at - 1 });
                },
            }
            at = at + 1;
        }
        proof {
            lemma_first_rejected_is_leftmost(rest);
            assert(argument_views(arguments@) == classified_all(rest));
        }
        Format::new(template, arguments)
    }

    /// The template of the request.
    pub fn template(&self) -> (template: &Template)
        ensures
            template@ == self@.segments,
    {
        &self.template
    }

    /// The arguments of the request: those of the user, then the filler.
    pub fn arguments(&self) -> (arguments: &Vec<Argument>)
        ensures
            argument_views(arguments@) == self@.arguments,
            arguments@.len() == self@.arguments.len(),
            self@.well_formed(),
    {
        proof {
            use_type_invariant(self);
        }
        &self.arguments
    }

    /// Pairs each segment with its argument, in the order of the template.
    pub fn fragments(&self) -> (fragments: Vec<Fragment>)
        ensures
            fragment_views(fragments@) == self@.fragments(),
            fragments@.len() == self@.segments.len(),
            self@.well_formed(),
    {
        proof {
            use_type_invariant(self);
        }
        let mut fragments: Vec<Fragment> = Vec::new();
        let mut at: usize = 0;
        while at < self.template.len()
            invariant
                self@.well_formed(),
                at <= self.template@.len(),
                fragments@.len() == at,
                forall|i: int|
                    0 <= i < at ==> (#[trigger] fragments@[i])@ == self@.fragments()[i],
            decreases self.template@.len() - at,
        {
            fragments.push(
                Fragment { literal: self.template[at].clone(), argument: self.arguments[at].clone() },
            );
            at = at + 1;
        }
        fragments
    }
}

} // verus!
