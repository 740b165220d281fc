//! The re-split oracle: whether the finer units that a morpheme was split into
//! agree with the text they were cut from.

use crate::morpheme::{views, Morpheme, MorphemeView};
use vstd::prelude::*;
use vstd::utf8::{encode_utf8, is_char_boundary};

verus! {

/// What can be wrong with one sub-morpheme, looked at on its own.
#[derive(Clone, Copy, Debug, PartialEq, Eq, Structural)]
pub enum PartFault {
    /// Its byte span is reversed or ends beyond the text.
    SpanOutOfBounds,
    /// Its byte span does not begin and end between two characters.
    NotCharBoundary,
    /// Its surface is not what the text holds at its byte span.
    SurfaceMismatch,
}

impl PartFault {
    /// The verdict that this fault of the part at `index` leads to.
    fn verdict(self, index: usize) -> (v: SplitVerdict)
        ensures
            v == fault_verdict(self, index),
    {
        match self {
            PartFault::SpanOutOfBounds => SplitVerdict::SpanOutOfBounds { index },
            PartFault::NotCharBoundary => SplitVerdict::NotCharBoundary { index },
            PartFault::SurfaceMismatch => SplitVerdict::SurfaceMismatch { index },
        }
    }
}

/// The outcome of checking the sub-morphemes of one morpheme.
#[derive(Clone, Copy, Debug, PartialEq, Eq, Structural)]
pub enum SplitVerdict {
    /// No sub-morpheme has a fault and, unless there are none, their spans
    /// are together as long as the parent's surface.
    Consistent,
    /// The first faulty sub-morpheme has its span outside the text.
    SpanOutOfBounds { index: usize },
    /// The first faulty sub-morpheme cuts a character in two.
    NotCharBoundary { index: usize },
    /// The first faulty sub-morpheme's surface differs from the text.
    SurfaceMismatch { index: usize },
    /// No sub-morpheme has a fault, but their spans are together shorter or
    /// longer than the parent's surface.
    LengthMismatch,
}

/// The fault of `part` as a piece of `text`, if it has one. The span is
/// judged first, then the boundaries, then the surface.
pub open spec fn part_fault(text: Seq<char>, part: MorphemeView) -> Option<PartFault> {
    let bytes = encode_utf8(text);
    if !part.span_within(bytes.len()) {
        Some(PartFault::SpanOutOfBounds)
    } else if !is_char_boundary(bytes, part.begin as int) || !is_char_boundary(
        bytes,
        part.end as int,
    ) {
        Some(PartFault::NotCharBoundary)
    } else if bytes.subrange(part.begin as int, part.end as int) != part.surface_bytes() {
        Some(PartFault::SurfaceMismatch)
    } else {
        None
    }
}

/// How many parts at the front of `parts` have no fault.
pub open spec fn sound_prefix(text: Seq<char>, parts: Seq<MorphemeView>) -> nat
    decreases parts.len(),
{
    if parts.len() == 0 || part_fault(text, parts[0]) is Some {
        0
    } else {
        1 + sound_prefix(text, parts.drop_first())
    }
}

/// The summed byte length of the spans of `parts`.
pub open spec fn spans_total(parts: Seq<MorphemeView>) -> int
    decreases parts.len(),
{
    if parts.len() == 0 {
        0
    } else {
        spans_total(parts.drop_last()) + (parts.last().end - parts.last().begin)
    }
}

/// The verdict that a fault of the part at `index` leads to.
pub open spec fn fault_verdict(fault: PartFault, index: usize) -> SplitVerdict {
    match fault {
        PartFault::SpanOutOfBounds => SplitVerdict::SpanOutOfBounds { index },
        PartFault::NotCharBoundary => SplitVerdict::NotCharBoundary { index },
        PartFault::SurfaceMismatch => SplitVerdict::SurfaceMismatch { index },
    }
}

/// The verdict on `parts` as the split of `parent` within `text`: the first
/// fault decides; without one, the summed length does, unless there are no
/// parts at all.
pub open spec fn split_verdict(
    text: Seq<char>,
    parent: MorphemeView,
    parts: Seq<MorphemeView>,
) -> SplitVerdict {
    let k = sound_prefix(text, parts);
    if k < parts.len() {
        fault_verdict(part_fault(text, parts[k as int])->0, k as usize)
    } else if parts.len() > 0 && spans_total(parts) != parent.surface_bytes().len() {
        SplitVerdict::LengthMismatch
    } else {
        SplitVerdict::Consistent
    }
}

/// `sound_prefix` is the index of the first faulty part, or the number of
/// parts when none is faulty.
pub proof fn lemma_sound_prefix_is_first_fault(text: Seq<char>, parts: Seq<MorphemeView>, k: int)
    requires
        0 <= k <= parts.len(),
        forall|j: int| 0 <= j < k ==> part_fault(text, #[trigger] parts[j]) is None,
        k < parts.len() ==> part_fault(text, parts[k]) is Some,
    ensures
        sound_prefix(text, parts) == k,
    decreases parts.len(),
{
    if k > 0 {
        let rest = parts.drop_first();
        assert forall|j: int| 0 <= j < k - 1 implies part_fault(text, #[trigger] rest[j])
            is None by {
            assert(rest[j] == parts[j + 1]);
        }
        lemma_sound_prefix_is_first_fault(text, rest, k - 1);
    }
}

/// When the sound front takes in every part, none of them has a fault.
pub proof fn lemma_sound_prefix_full(text: Seq<char>, parts: Seq<MorphemeView>)
    requires
        sound_prefix(text, parts) >= parts.len(),
    ensures
        forall|j: int| 0 <= j < parts.len() ==> part_fault(text, #[trigger] parts[j]) is None,
    decreases parts.len(),
{
    if parts.len() > 0 {
        let rest = parts.drop_first();
        lemma_sound_prefix_full(text, rest);
        assert forall|j: int| 0 <= j < parts.len() implies part_fault(text, #[trigger] parts[j])
            is None by {
            if j > 0 {
                assert(parts[j] == rest[j - 1]);
            }
        }
    }
}

/// Whether `hay` holds exactly `needle` from `begin` up to `end`.
fn holds_at(hay: &[u8], begin: usize, end: usize, needle: &[u8]) -> (r: bool)
    requires
        begin <= end <= hay@.len(),
    ensures
        r == (hay@.subrange(begin as int, end as int) == needle@),
{
    if needle.len() != end - begin {
        return false;
    }
    let mut k: usize = 0;
    while k < needle.len()
        invariant
            begin <= end <= hay@.len(),
            needle@.len() == end - begin,
            k <= needle@.len(),
            forall|j: int| 0 <= j < k ==> hay@[begin + j] == needle@[j],
        decreases needle@.len() - k,
    {
        if hay[begin + k] != needle[k] {
            return false;
        }
        k += 1;
    }
    assert(hay@.subrange(begin as int, end as int) =~= needle@);
    true
}

/// The fault of `part` as a piece of `text`, if it has one.
pub fn find_fault(text: &str, part: &Morpheme) -> (r: Option<PartFault>)
    ensures
        r == part_fault(text@, part@),
{
    let bytes = text.as_bytes();
    if part.begin > part.end || part.end > bytes.len() {
        return Some(PartFault::SpanOutOfBounds);
    }
    if !text.is_char_boundary(part.begin) || !text.is_char_boundary(part.end) {
        return Some(PartFault::NotCharBoundary);
    }
    if !holds_at(bytes, part.begin, part.end, part.surface.as_str().as_bytes()) {
        return Some(PartFault::SurfaceMismatch);
    }
    None
}

/// Judges `parts` as the split of `parent` within `text`.
///
/// The parts are visited in order and the first one with a fault ends the
/// check. When none has a fault and there is at least one part, the summed
/// length of their spans must be the byte length of the parent's surface.
pub fn check_split(text: &str, parent: &Morpheme, parts: &Vec<Morpheme>) -> (v: SplitVerdict)
    ensures
        v == split_verdict(text@, parent@, views(parts@)),
{
    let wanted: usize = parent.surface.as_str().as_bytes().len();
    let ghost all = views(parts@);
    let mut consumed: usize = 0;
    let mut exceeded: bool = false;
    let mut j: usize = 0;
    while j < parts.len()
        invariant
            j <= parts@.len(),
            all == views(parts@),
            wanted == parent@.surface_bytes().len(),
            forall|i: int| 0 <= i < j ==> part_fault(text@, #[trigger] all[i]) is None,
            exceeded ==> spans_total(all.take(j as int)) > wanted,
            !exceeded ==> spans_total(all.take(j as int)) == consumed,
            consumed <= wanted,
        decreases parts@.len() - j,
    {
        let part = &parts[j];
        match find_fault(text, part) {
            Some(fault) => {
                proof {
                    lemma_sound_prefix_is_first_fault(text@, all, j as int);
                }
                return fault.verdict(j);
            },
            None => {},
        }
        let length: usize = part.end - part.begin;
        proof {
            assert(all.take(j + 1).drop_last() =~= all.take(j as int));
            lemma_spans_total_nonnegative(all.take(j as int));
        }
        if !exceeded {
            if length > wanted - consumed {
                exceeded = true;
            } else {
                consumed += length;
            }
        }
        j += 1;
    }
    proof {
        lemma_sound_prefix_is_first_fault(text@, all, j as int);
        assert(all.take(j as int) =~= all);
    }
    if parts.len() > 0 && (exceeded || consumed != wanted) {
        SplitVerdict::LengthMismatch
    } else {
        SplitVerdict::Consistent
    }
}

/// Ordered spans never sum to less than nothing.
pub proof fn lemma_spans_total_nonnegative(parts: Seq<MorphemeView>)
    requires
        forall|i: int| 0 <= i < parts.len() ==> (#[trigger] parts[i]).begin <= parts[i].end,
    ensures
        spans_total(parts) >= 0,
    decreases parts.len(),
{
    if parts.len() > 0 {
        let front = parts.drop_last();
        assert forall|i: int| 0 <= i < front.len() implies (#[trigger] front[i]).begin
            <= front[i].end by {
            assert(front[i] == parts[i]);
        }
        lemma_spans_total_nonnegative(front);
    }
}

} // verus!
