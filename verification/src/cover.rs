//! What a consistent split says about the text: when the finer units tile
//! their parent, and when their surfaces spell it.

use crate::morpheme::MorphemeView;
use crate::split::{
    lemma_sound_prefix_full, lemma_sound_prefix_is_first_fault, part_fault, spans_total,
    split_verdict,
};
use vstd::prelude::*;
use vstd::utf8::{encode_utf8, encode_utf8_decode_utf8};

verus! {

/// The surfaces of `parts`, one after the other.
pub open spec fn joined_surface(parts: Seq<MorphemeView>) -> Seq<char>
    decreases parts.len(),
{
    if parts.len() == 0 {
        Seq::empty()
    } else {
        joined_surface(parts.drop_last()) + parts.last().surface
    }
}

/// No part begins before the one ahead of it has ended.
pub open spec fn spans_ordered(parts: Seq<MorphemeView>) -> bool {
    forall|j: int| 0 <= j < parts.len() - 1 ==> (#[trigger] parts[j]).end <= parts[j + 1].begin
}

/// Every part begins exactly where the one ahead of it ended.
pub open spec fn spans_chained(parts: Seq<MorphemeView>) -> bool {
    forall|j: int| 0 <= j < parts.len() - 1 ==> (#[trigger] parts[j]).end == parts[j + 1].begin
}

/// The parts lie inside the span of `parent`, in order and without overlap.
pub open spec fn spans_inside(parent: MorphemeView, parts: Seq<MorphemeView>) -> bool {
    &&& spans_ordered(parts)
    &&& parts.len() > 0 ==> parent.begin <= parts[0].begin && parts.last().end <= parent.end
}

/// The parts cover the span of `parent` exactly, with no gap and no overlap.
pub open spec fn spans_tile(parent: MorphemeView, parts: Seq<MorphemeView>) -> bool {
    &&& parts.len() > 0
    &&& parts[0].begin == parent.begin
    &&& spans_chained(parts)
    &&& parts.last().end == parent.end
}

/// Encoding a text piece by piece gives the encoding of the whole.
pub proof fn lemma_encode_concat(a: Seq<char>, b: Seq<char>)
    ensures
        encode_utf8(a + b) == encode_utf8(a) + encode_utf8(b),
    decreases a.len(),
{
    if a.len() > 0 {
        assert((a + b).drop_first() =~= a.drop_first() + b);
        lemma_encode_concat(a.drop_first(), b);
    }
}

/// Ordered spans are together no longer than the stretch from the first
/// begin to the last end, and exactly that long only when they are chained.
pub proof fn lemma_ordered_spans_fill(parts: Seq<MorphemeView>)
    requires
        parts.len() > 0,
        spans_ordered(parts),
        forall|i: int| 0 <= i < parts.len() ==> (#[trigger] parts[i]).begin <= parts[i].end,
    ensures
        spans_total(parts) <= parts.last().end - parts[0].begin,
        spans_total(parts) == parts.last().end - parts[0].begin ==> spans_chained(parts),
    decreases parts.len(),
{
    let front = parts.drop_last();
    if front.len() == 0 {
        assert(spans_total(front) == 0);
    } else {
        assert(spans_ordered(front)) by {
            assert forall|j: int| 0 <= j < front.len() - 1 implies (#[trigger] front[j]).end
                <= front[j + 1].begin by {
                assert(front[j] == parts[j]);
            }
        }
        lemma_ordered_spans_fill(front);
        // the last part begins no earlier than the front ends, so the whole
        // can only be full when the front is full and the last part follows
        // it without a gap
        assert(front.last().end <= parts.last().begin) by {
            assert(front.last() == parts[parts.len() - 2]);
        }
        if spans_total(parts) == parts.last().end - parts[0].begin {
            assert forall|j: int| 0 <= j < parts.len() - 1 implies (#[trigger] parts[j]).end
                == parts[j + 1].begin by {
                if j < parts.len() - 2 {
                    assert(front[j] == parts[j]);
                }
            }
        }
    }
}

/// Chained spans are together exactly as long as the stretch from the first
/// begin to the last end.
pub proof fn lemma_chained_spans_total(parts: Seq<MorphemeView>)
    requires
        parts.len() > 0,
        spans_chained(parts),
    ensures
        spans_total(parts) == parts.last().end - parts[0].begin,
    decreases parts.len(),
{
    let front = parts.drop_last();
    if front.len() == 0 {
        assert(spans_total(front) == 0);
    } else {
        assert(spans_chained(front)) by {
            assert forall|j: int| 0 <= j < front.len() - 1 implies (#[trigger] front[j]).end
                == front[j + 1].begin by {
                assert(front[j] == parts[j]);
            }
        }
        lemma_chained_spans_total(front);
        assert(front.last().end == parts.last().begin) by {
            assert(front.last() == parts[parts.len() - 2]);
        }
    }
}

/// Chained parts without a fault spell out the text from the first begin to
/// the last end.
pub proof fn lemma_chained_parts_spell_text(text: Seq<char>, parts: Seq<MorphemeView>)
    requires
        parts.len() > 0,
        spans_chained(parts),
        forall|j: int| 0 <= j < parts.len() ==> part_fault(text, #[trigger] parts[j]) is None,
    ensures
        parts[0].begin <= parts.last().end <= encode_utf8(text).len(),
        encode_utf8(joined_surface(parts)) == encode_utf8(text).subrange(
            parts[0].begin as int,
            parts.last().end as int,
        ),
    decreases parts.len(),
{
    let bytes = encode_utf8(text);
    let front = parts.drop_last();
    let last = parts.last();
    assert(part_fault(text, last) is None);
    lemma_encode_concat(joined_surface(front), last.surface);
    if front.len() > 0 {
        assert(spans_chained(front)) by {
            assert forall|j: int| 0 <= j < front.len() - 1 implies (#[trigger] front[j]).end
                == front[j + 1].begin by {
                assert(front[j] == parts[j]);
            }
        }
        assert forall|j: int| 0 <= j < front.len() implies part_fault(text, #[trigger] front[j])
            is None by {
            assert(front[j] == parts[j]);
        }
        lemma_chained_parts_spell_text(text, front);
        // the front spells the text up to where the last part begins
        assert(front.last().end == last.begin) by {
            assert(front.last() == parts[parts.len() - 2]);
        }
        assert(bytes.subrange(parts[0].begin as int, last.begin as int) + bytes.subrange(
            last.begin as int,
            last.end as int,
        ) =~= bytes.subrange(parts[0].begin as int, last.end as int));
    }
}

/// A consistent, non-empty split rebuilds its parent.
///
/// Let the verdict on `parts` be `Consistent`, let `parent` itself be a sound
/// piece of `text`, and let the parts lie inside the parent's span in order
/// and without overlap. Then the spans of the parts cover the parent's span
/// exactly, each beginning where the one before ended, and the surfaces of
/// the parts, one after the other, are the parent's surface, byte for byte.
///
/// The verdict alone does not say as much: it looks at each part on its own
/// and at the summed length, so the first half of a parent taken twice
/// passes it as well.
pub proof fn lemma_consistent_split_rebuilds_parent(
    text: Seq<char>,
    parent: MorphemeView,
    parts: Seq<MorphemeView>,
)
    requires
        parts.len() > 0,
        split_verdict(text, parent, parts) is Consistent,
        part_fault(text, parent) is None,
        spans_inside(parent, parts),
    ensures
        spans_tile(parent, parts),
        joined_surface(parts) == parent.surface,
        encode_utf8(joined_surface(parts)) == parent.surface_bytes(),
{
    // no part has a fault, and together they are as long as the parent
    lemma_sound_prefix_full(text, parts);
    assert(spans_total(parts) == parent.end - parent.begin);
    // so they fill the parent's span without a gap
    lemma_ordered_spans_fill(parts);
    // and spell the text that the parent spells
    lemma_chained_parts_spell_text(text, parts);
    assert(encode_utf8(joined_surface(parts)) == parent.surface_bytes());
    encode_utf8_decode_utf8(joined_surface(parts));
    encode_utf8_decode_utf8(parent.surface);
}

/// A split that tiles its parent and agrees with the text is consistent.
///
/// Let `parent` be a sound piece of `text`, let no part have a fault, and let
/// the spans of the parts cover the parent's span exactly. Then the verdict
/// on the parts is `Consistent`.
pub proof fn lemma_tiling_split_is_consistent(
    text: Seq<char>,
    parent: MorphemeView,
    parts: Seq<MorphemeView>,
)
    requires
        part_fault(text, parent) is None,
        forall|j: int| 0 <= j < parts.len() ==> part_fault(text, #[trigger] parts[j]) is None,
        spans_tile(parent, parts),
    ensures
        split_verdict(text, parent, parts) is Consistent,
{
    lemma_sound_prefix_is_first_fault(text, parts, parts.len() as int);
    lemma_chained_spans_total(parts);
    assert(spans_total(parts) == parent.surface_bytes().len());
}

} // verus!
