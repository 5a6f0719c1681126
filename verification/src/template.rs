//! The template: a text cut into literal segments at each `{}` marker.
//!
//! A marker cannot be escaped: every `{` directly followed by `}` is one.

use vstd::prelude::*;
use vstd::string::StrSliceExecFns;
use vstd::string::StringExecFns;

verus! {

/// Whether a marker starts at position `at` of `text`.
pub open spec fn marker_at(text: Seq<char>, at: int) -> bool {
    0 <= at && at + 1 < text.len() && text[at] == '{' && text[at + 1] == '}'
}

/// Where the leftmost marker of `text` starts; the length of `text` if it
/// holds none.
pub open spec fn first_marker(text: Seq<char>) -> int
    decreases text.len(),
{
    if text.len() < 2 {
        text.len() as int
    } else if text[0] == '{' && text[1] == '}' {
        0
    } else {
        1 + first_marker(text.drop_first())
    }
}

/// The literal segments of `text`: what stands before the leftmost marker,
/// then the segments of what follows that marker.
pub open spec fn segments(text: Seq<char>) -> Seq<Seq<char>>
    decreases text.len(),
{
    let at = first_marker(text);
    if 0 <= at && at + 2 <= text.len() {
        seq![text.take(at)] + segments(text.skip(at + 2))
    } else {
        seq![text]
    }
}

/// How many markers `text` holds: read from the left, each `{}` counts once
/// and is passed over.
pub open spec fn placeholders(text: Seq<char>) -> nat
    decreases text.len(),
{
    if text.len() < 2 {
        0
    } else if text[0] == '{' && text[1] == '}' {
        1 + placeholders(text.skip(2))
    } else {
        placeholders(text.drop_first())
    }
}

/// `text` with its markers replaced, from the left, by `texts[0]`,
/// `texts[1]`, and so on. Markers for which `texts` holds nothing stay.
pub open spec fn substituted(text: Seq<char>, texts: Seq<Seq<char>>) -> Seq<char>
    decreases text.len(),
{
    let at = first_marker(text);
    if 0 <= at && at + 2 <= text.len() && texts.len() > 0 {
        text.take(at) + texts[0] + substituted(text.skip(at + 2), texts.drop_first())
    } else {
        text
    }
}

/// The segments written one after the other, `texts[i]` following segment
/// `i` where there is one.
pub open spec fn interleaved(segments: Seq<Seq<char>>, texts: Seq<Seq<char>>) -> Seq<char>
    decreases segments.len(),
{
    if segments.len() == 0 {
        Seq::empty()
    } else if texts.len() == 0 {
        segments[0] + interleaved(segments.drop_first(), texts)
    } else {
        segments[0] + texts[0] + interleaved(segments.drop_first(), texts.drop_first())
    }
}

/// The marker itself.
pub open spec fn marker() -> Seq<char> {
    seq!['{', '}']
}

/// `first_marker` is the least position at which a marker starts.
pub proof fn lemma_first_marker(text: Seq<char>, at: int)
    requires
        0 <= at <= text.len(),
        forall|p: int| 0 <= p < at ==> !marker_at(text, p),
        marker_at(text, at) || at + 1 >= text.len(),
    ensures
        marker_at(text, at) ==> first_marker(text) == at,
        !marker_at(text, at) ==> first_marker(text) == text.len(),
    decreases text.len(),
{
    if text.len() >= 2 && !(text[0] == '{' && text[1] == '}') {
        let rest = text.drop_first();
        assert forall|p: int| 0 <= p < at - 1 implies !marker_at(rest, p) by {
            assert(!marker_at(text, p + 1));
        }
        if at > 0 {
            lemma_first_marker(rest, at - 1);
        }
    } else if text.len() >= 2 {
        assert(marker_at(text, 0));
    }
}

/// What `first_marker` finds: a marker, with none before it, or the end.
pub proof fn lemma_first_marker_is_leftmost(text: Seq<char>)
    ensures
        0 <= first_marker(text) <= text.len(),
        first_marker(text) < text.len() ==> marker_at(text, first_marker(text)),
        forall|p: int| 0 <= p < first_marker(text) ==> !marker_at(text, p),
        first_marker(text) == text.len() ==> forall|p: int| !marker_at(text, p),
    decreases text.len(),
{
    if text.len() >= 2 && !(text[0] == '{' && text[1] == '}') {
        let rest = text.drop_first();
        lemma_first_marker_is_leftmost(rest);
        assert forall|p: int| 0 <= p < first_marker(text) implies !marker_at(text, p) by {
            if p > 0 {
                assert(!marker_at(rest, p - 1));
            }
        }
    }
}

/// Counting the markers goes from the leftmost marker to what follows it,
/// as cutting does.
pub proof fn lemma_placeholders_from_first_marker(text: Seq<char>)
    ensures
        first_marker(text) + 2 <= text.len() ==> placeholders(text) == 1 + placeholders(
            text.skip(first_marker(text) + 2),
        ),
        first_marker(text) + 2 > text.len() ==> placeholders(text) == 0,
    decreases text.len(),
{
    if text.len() >= 2 && !(text[0] == '{' && text[1] == '}') {
        let rest = text.drop_first();
        lemma_placeholders_from_first_marker(rest);
        lemma_first_marker_is_leftmost(rest);
        if first_marker(rest) + 2 <= rest.len() {
            assert(rest.skip(first_marker(rest) + 2) == text.skip(first_marker(text) + 2));
        }
    }
}

/// A text with `k` markers has `k + 1` segments.
pub proof fn lemma_segment_count(text: Seq<char>)
    ensures
        segments(text).len() == placeholders(text) + 1,
    decreases text.len(),
{
    lemma_first_marker_is_leftmost(text);
    lemma_placeholders_from_first_marker(text);
    let at = first_marker(text);
    if at + 2 <= text.len() {
        lemma_segment_count(text.skip(at + 2));
    }
}

/// No segment holds a marker.
pub proof fn lemma_segments_hold_no_marker(text: Seq<char>)
    ensures
        forall|i: int, p: int|
            0 <= i < segments(text).len() ==> !#[trigger] marker_at(segments(text)[i], p),
    decreases text.len(),
{
    lemma_first_marker_is_leftmost(text);
    let at = first_marker(text);
    if at + 2 <= text.len() {
        let rest = text.skip(at + 2);
        lemma_segments_hold_no_marker(rest);
        assert forall|i: int, p: int| 0 <= i < segments(text).len() implies !#[trigger] marker_at(
            segments(text)[i],
            p,
        ) by {
            if i == 0 {
                if marker_at(text.take(at), p) {
                    assert(marker_at(text, p));
                }
            } else {
                assert(segments(text)[i] == segments(rest)[i - 1]);
            }
        }
    }
}

/// Writing `texts` between the segments of `text` is replacing its markers
/// by them, in order.
pub proof fn lemma_interleaving_substitutes(text: Seq<char>, texts: Seq<Seq<char>>)
    requires
        texts.len() == placeholders(text),
    ensures
        interleaved(segments(text), texts) == substituted(text, texts),
    decreases text.len(),
{
    lemma_first_marker_is_leftmost(text);
    lemma_placeholders_from_first_marker(text);
    let at = first_marker(text);
    let parts = segments(text);
    if at + 2 <= text.len() {
        let rest = text.skip(at + 2);
        lemma_interleaving_substitutes(rest, texts.drop_first());
        assert(parts.drop_first() == segments(rest));
    } else {
        assert(interleaved(parts.drop_first(), texts) == Seq::<char>::empty());
    }
}

/// Cutting loses nothing: the segments with a marker between each two are
/// the text again.
pub proof fn lemma_segments_rejoin(text: Seq<char>)
    ensures
        interleaved(segments(text), Seq::new(placeholders(text), |i: int| marker())) == text,
    decreases text.len(),
{
    lemma_first_marker_is_leftmost(text);
    lemma_placeholders_from_first_marker(text);
    let at = first_marker(text);
    let parts = segments(text);
    let markers = Seq::new(placeholders(text), |i: int| marker());
    if at + 2 <= text.len() {
        let rest = text.skip(at + 2);
        lemma_segments_rejoin(rest);
        assert(parts.drop_first() == segments(rest));
        assert(markers.drop_first() == Seq::new(placeholders(rest), |i: int| marker()));
    } else {
        assert(interleaved(parts.drop_first(), markers) == Seq::<char>::empty());
    }
}

/// The texts that a list of strings holds.
pub open spec fn slot_views(slots: Seq<String>) -> Seq<Seq<char>> {
    Seq::new(slots.len(), |i: int| slots[i]@)
}

/// A template cut into its literal segments.
#[derive(Debug)]
pub struct Template {
    slots: Vec<String>,
}

impl View for Template {
    type V = Seq<Seq<char>>;

    closed spec fn view(&self) -> Seq<Seq<char>> {
        slot_views(self.slots@)
    }
}

impl Template {
    #[verifier::type_invariant]
    spec fn well_formed(&self) -> bool {
        self.slots@.len() >= 1
    }

    /// Cuts `text` at its markers.
    pub fn parse(text: &str) -> (template: Template)
        ensures
            template@ == segments(text@),
    {
        broadcast use vstd::string::group_string_axioms;

        let length: usize = text.unicode_len();
        let mut slots: Vec<String> = Vec::new();
        let mut start: usize = 0;
        let mut at: usize = 0;
        let mut open = false;
        proof {
            assert(text@.skip(0) == text@);
        }
        for c in it: text.chars()
            invariant
                it.seq() == text@,
                length == text@.len(),
                at == it.index(),
                start <= at,
                open <==> start < at && text@[at - 1] == '{',
                forall|p: int| start <= p < at - 1 ==> !marker_at(text@, p),
                segments(text@) == slot_views(slots@) + segments(text@.skip(start as int)),
        {
            if open && c == '}' {
                proof {
                    let rest = text@.skip(start as int);
                    let found = at - 1 - start;
                    assert forall|p: int| 0 <= p < found implies !marker_at(rest, p) by {
                        assert(!marker_at(text@, p + start));
                    }
                    lemma_first_marker(rest, found);
                    assert(rest.take(found) == text@.subrange(start as int, at - 1));
                    assert(rest.skip(found + 2) == text@.skip(at + 1));
                }
                slots.push(String::from_str(text.substring_char(start, at - 1)));
                start = at + 1;
                open = false;
            } else {
                open = c == '{';
            }
            at = at + 1;
        }
        proof {
            let rest = text@.skip(start as int);
            assert forall|p: int| 0 <= p < rest.len() implies !marker_at(rest, p) by {
                assert(!marker_at(text@, p + start));
            }
            lemma_first_marker(rest, rest.len() as int);
        }
        slots.push(String::from_str(text.substring_char(start, length)));
        Template { slots }
    }
}

impl std::ops::Deref for Template {
    type Target = Vec<String>;

    /// The segments as a list of strings, never empty.
    fn deref(&self) -> (slots: &Vec<String>)
        ensures
            slot_views(slots@) == self@,
            slots@.len() == self@.len(),
            slots@.len() >= 1,
    {
        proof {
            use_type_invariant(self);
        }
        &self.slots
    }
}

} // verus!
