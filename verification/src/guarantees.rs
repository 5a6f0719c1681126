//! What holds of every expansion, proved over the functions that the
//! contracts of the library speak of.

use crate::argument::{classified, ArgumentView};
use crate::elements::elements;
use crate::error::{arity_mismatch_text, invalid_argument_text, FormatError};
use crate::format::{
    classified_all, first_rejected, lemma_first_rejected_is_leftmost, parsed, validated,
    FormatView, FragmentView,
};
use crate::output::{concat_invocation, expanded};
use crate::syntax::{compile_error_invocation, string_literal_value};
use crate::template::{
    interleaved, lemma_interleaving_substitutes, lemma_placeholders_from_first_marker,
    lemma_segment_count, placeholders, segments, substituted,
};
use crate::token::Token;
use vstd::prelude::*;

verus! {

/// What the fragments read as once `written` says what each argument
/// contributes: each segment, then its argument, in order.
pub open spec fn rendered(
    fragments: Seq<FragmentView>,
    written: spec_fn(ArgumentView) -> Seq<char>,
) -> Seq<char>
    decreases fragments.len(),
{
    if fragments.len() == 0 {
        Seq::empty()
    } else {
        fragments[0].literal + written(fragments[0].argument) + rendered(
            fragments.drop_first(),
            written,
        )
    }
}

/// The fragments of a request read as its segments with what the arguments
/// of the user contribute written between them: the filler adds nothing.
pub proof fn lemma_rendered_interleaves(
    segments: Seq<Seq<char>>,
    arguments: Seq<ArgumentView>,
    written: spec_fn(ArgumentView) -> Seq<char>,
)
    requires
        arguments.len() + 1 == segments.len(),
        written(ArgumentView::Filler) == Seq::<char>::empty(),
    ensures
        rendered(
            (FormatView { segments, arguments: arguments.push(ArgumentView::Filler) }).fragments(),
            written,
        ) == interleaved(segments, arguments.map_values(written)),
    decreases segments.len(),
{
    let request = FormatView { segments, arguments: arguments.push(ArgumentView::Filler) };
    let fragments = request.fragments();
    let texts = arguments.map_values(written);
    if segments.len() == 1 {
        assert(rendered(fragments.drop_first(), written) == Seq::<char>::empty());
        assert(interleaved(segments.drop_first(), texts) == Seq::<char>::empty());
    } else {
        let shorter = FormatView {
            segments: segments.drop_first(),
            arguments: arguments.drop_first().push(ArgumentView::Filler),
        };
        lemma_rendered_interleaves(segments.drop_first(), arguments.drop_first(), written);
        assert(fragments.drop_first() == shorter.fragments());
        assert(texts.drop_first() == arguments.drop_first().map_values(written));
    }
}

/// Each outcome of parsing tells what the input was, for an input whose
/// counts fit the machine: a request comes of a template with as many
/// accepted arguments as it has markers, and of nothing else; a missing
/// template is reported where the first element is no string literal; an
/// invalid argument where the element reported is none and every argument
/// before it is one, and then this element is what the error points at; a
/// wrong count where every argument is accepted and the counts told are
/// those of the markers and of the arguments.
pub proof fn outcome_tells_the_input(tokens: Seq<Token>)
    requires
        elements(tokens).len() <= usize::MAX,
        string_literal_value(elements(tokens)[0]) matches Some(text) ==> placeholders(text)
            <= usize::MAX,
    ensures
        match parsed(tokens) {
            Ok(request) => {
                &&& string_literal_value(elements(tokens)[0]) matches Some(text)
                &&& forall|i: int|
                    1 <= i < elements(tokens).len() ==> classified(
                        #[trigger] elements(tokens)[i],
                    ) is Some
                &&& elements(tokens).len() - 1 == placeholders(text)
                &&& request.segments == segments(text)
                &&& request.arguments == classified_all(elements(tokens).skip(1)).push(
                    ArgumentView::Filler,
                )
            },
            Err(FormatError::MissingTemplate) => string_literal_value(elements(tokens)[0])
                is None,
            Err(FormatError::InvalidArgument { index }) => {
                &&& string_literal_value(elements(tokens)[0]) is Some
                &&& index + 1 < elements(tokens).len()
                &&& classified(elements(tokens)[index + 1]) is None
                &&& forall|i: int|
                    1 <= i <= index ==> classified(#[trigger] elements(tokens)[i]) is Some
                &&& (FormatError::InvalidArgument { index }).culprit_tokens(tokens) == elements(
                    tokens,
                )[index + 1]
            },
            Err(FormatError::ArityMismatch { expected, found }) => {
                &&& string_literal_value(elements(tokens)[0]) matches Some(text)
                &&& forall|i: int|
                    1 <= i < elements(tokens).len() ==> classified(
                        #[trigger] elements(tokens)[i],
                    ) is Some
                &&& expected == placeholders(text)
                &&& found == elements(tokens).len() - 1
                &&& expected != found
            },
        },
{
    let rest = elements(tokens).skip(1);
    lemma_first_rejected_is_leftmost(rest);
    match string_literal_value(elements(tokens)[0]) {
        Some(text) => {
            lemma_segment_count(text);
            match first_rejected(rest) {
                Some(at) => {
                    assert forall|i: int| 1 <= i <= at implies classified(
                        #[trigger] elements(tokens)[i],
                    ) is Some by {
                        assert(elements(tokens)[i] == rest[i - 1]);
                    }
                },
                None => {
                    assert forall|i: int| 1 <= i < elements(tokens).len() implies classified(
                        #[trigger] elements(tokens)[i],
                    ) is Some by {
                        assert(elements(tokens)[i] == rest[i - 1]);
                    }
                },
            }
        },
        None => {},
    }
}

/// A template with `k` markers and `k` arguments makes a request of `k + 1`
/// fragments: the segments of the template, each with the argument that
/// belongs at its marker, the last with the filler. Read in order, whatever
/// the arguments contribute, they are the template with each marker
/// replaced by what its argument contributes.
pub proof fn matching_count_makes_a_request(
    text: Seq<char>,
    arguments: Seq<ArgumentView>,
    written: spec_fn(ArgumentView) -> Seq<char>,
)
    requires
        arguments.len() == placeholders(text),
        written(ArgumentView::Filler) == Seq::<char>::empty(),
    ensures
        validated(segments(text), arguments) matches Ok(request) && {
            &&& request.well_formed()
            &&& request.segments == segments(text)
            &&& request.arguments == arguments.push(ArgumentView::Filler)
            &&& request.fragments().len() == placeholders(text) + 1
            &&& rendered(request.fragments(), written) == substituted(
                text,
                arguments.map_values(written),
            )
        },
{
    lemma_segment_count(text);
    lemma_rendered_interleaves(segments(text), arguments, written);
    lemma_interleaving_substitutes(text, arguments.map_values(written));
}

/// A template with `k` markers and another number of arguments makes no
/// request: both counts are told, the filler not among them.
pub proof fn other_count_makes_no_request(text: Seq<char>, arguments: Seq<ArgumentView>)
    requires
        arguments.len() != placeholders(text),
    ensures
        validated(segments(text), arguments) == Err::<FormatView, FormatError>(
            FormatError::ArityMismatch {
                expected: placeholders(text) as usize,
                found: arguments.len() as usize,
            },
        ),
{
    lemma_segment_count(text);
}

/// An input whose template has `k` markers and which brings `k` accepted
/// arguments expands, into `concat!` with the `k + 1` fragments of the
/// request: the segments of the template, each with the argument that was
/// written for its marker, the last with the filler. Read in order, whatever
/// the arguments contribute, the fragments are the template with each
/// marker replaced by what its argument contributes.
pub proof fn matching_count_expands(
    tokens: Seq<Token>,
    text: Seq<char>,
    written: spec_fn(ArgumentView) -> Seq<char>,
)
    requires
        string_literal_value(elements(tokens)[0]) == Some(text),
        forall|i: int|
            1 <= i < elements(tokens).len() ==> classified(#[trigger] elements(tokens)[i])
                is Some,
        elements(tokens).len() - 1 == placeholders(text),
        written(ArgumentView::Filler) == Seq::<char>::empty(),
    ensures
        parsed(tokens) matches Ok(request) && {
            let arguments = classified_all(elements(tokens).skip(1));
            &&& request.well_formed()
            &&& request.segments == segments(text)
            &&& request.arguments == arguments.push(ArgumentView::Filler)
            &&& request.fragments().len() == placeholders(text) + 1
            &&& rendered(request.fragments(), written) == substituted(
                text,
                arguments.map_values(written),
            )
            &&& expanded(tokens) == concat_invocation(request.fragments())
        },
{
    let rest = elements(tokens).skip(1);
    lemma_first_rejected_is_leftmost(rest);
    matching_count_makes_a_request(text, classified_all(rest), written);
}

/// An input whose template has `k` markers and which brings another number
/// of accepted arguments is refused, and both counts are told.
pub proof fn other_count_is_refused(tokens: Seq<Token>, text: Seq<char>)
    requires
        string_literal_value(elements(tokens)[0]) == Some(text),
        forall|i: int|
            1 <= i < elements(tokens).len() ==> classified(#[trigger] elements(tokens)[i])
                is Some,
        elements(tokens).len() - 1 != placeholders(text),
    ensures
        parsed(tokens) == Err::<FormatView, FormatError>(
            FormatError::ArityMismatch {
                expected: placeholders(text) as usize,
                found: (elements(tokens).len() - 1) as usize,
            },
        ),
        expanded(tokens) == compile_error_invocation(
            arity_mismatch_text(
                placeholders(text) as usize as nat,
                (elements(tokens).len() - 1) as usize as nat,
            ),
        ),
{
    let rest = elements(tokens).skip(1);
    lemma_first_rejected_is_leftmost(rest);
    other_count_makes_no_request(text, classified_all(rest));
}

/// An element that is no argument makes the expansion of an input with a
/// template fail, wherever the element stands and whatever the count: the
/// leftmost such element is reported.
pub proof fn invalid_argument_is_refused(tokens: Seq<Token>, position: int)
    requires
        string_literal_value(elements(tokens)[0]) is Some,
        1 <= position < elements(tokens).len(),
        classified(elements(tokens)[position]) is None,
    ensures
        first_rejected(elements(tokens).skip(1)) matches Some(index) && {
            &&& 0 <= index < position
            &&& classified(elements(tokens)[index + 1]) is None
            &&& parsed(tokens) == Err::<FormatView, FormatError>(
                FormatError::InvalidArgument { index: index as usize },
            )
            &&& expanded(tokens) == compile_error_invocation(invalid_argument_text())
        },
{
    let rest = elements(tokens).skip(1);
    lemma_first_rejected_is_leftmost(rest);
    assert(rest[position - 1] == elements(tokens)[position]);
}

/// A template without marker, given no argument, makes a request of one
/// fragment: the whole text and the filler.
pub proof fn no_marker_makes_one_fragment(text: Seq<char>)
    requires
        placeholders(text) == 0,
    ensures
        validated(segments(text), Seq::<ArgumentView>::empty()) matches Ok(request)
            && request.fragments() == seq![
            FragmentView { literal: text, argument: ArgumentView::Filler },
        ],
{
    lemma_placeholders_from_first_marker(text);
}

/// Assembling is repeatable: the fragments and the output are fixed by the
/// request alone, so two runs on one request give the same.
pub proof fn assembly_is_repeatable(first: FormatView, second: FormatView)
    requires
        first == second,
    ensures
        first.fragments() == second.fragments(),
        concat_invocation(first.fragments()) == concat_invocation(second.fragments()),
{
}

} // verus!
