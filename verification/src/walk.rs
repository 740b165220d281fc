//! The consistency walk over a morpheme list.
//!
//! The walk visits the morphemes in order. For each one it takes the surface
//! into a running text, asks for the morpheme to be split into finer units and
//! judges what comes back. Splitting is the engine's work, so the walk is
//! written as a machine: it says which morpheme it needs split, and is told
//! the result.

use crate::cover::joined_surface;
use crate::morpheme::{views, ListView, Mode, Morpheme, MorphemeList, MorphemeView};
use crate::split::{check_split, split_verdict, SplitVerdict};
use vstd::prelude::*;
use vstd::string::StringExecFns;

verus! {

/// What the engine answered when asked to split one morpheme.
#[derive(Clone, Debug, PartialEq, Eq)]
pub enum SplitEvent {
    /// The engine refused the request.
    Failed,
    /// The engine produced these finer units and no others: none, if the
    /// morpheme cannot be split further. Units left over from an earlier
    /// split have no place here.
    Parts(Vec<Morpheme>),
}

/// The mathematical value of a [`SplitEvent`].
pub enum EventView {
    Failed,
    Parts(Seq<MorphemeView>),
}

impl View for SplitEvent {
    type V = EventView;

    open spec fn view(&self) -> EventView {
        match self {
            SplitEvent::Failed => EventView::Failed,
            SplitEvent::Parts(parts) => EventView::Parts(views(parts@)),
        }
    }
}

/// The values of a sequence of events, in order.
pub open spec fn event_views(events: Seq<SplitEvent>) -> Seq<EventView> {
    Seq::new(events.len(), |i: int| events[i]@)
}

/// Where a walk stands.
#[derive(Clone, Copy, Debug, PartialEq, Eq, Structural)]
pub enum WalkState {
    /// The walk has taken in the surface of morpheme `index` and waits for
    /// its split in `mode`.
    NeedSplit { index: usize, mode: Mode },
    /// Every morpheme was visited and every split was consistent.
    Completed,
    /// The engine refused to split morpheme `index`; the walk ended there,
    /// which is no error.
    SplitFailed { index: usize },
    /// The split of morpheme `index` contradicts the text.
    Inconsistent { index: usize, verdict: SplitVerdict },
}

/// The state in which the walk turns to morpheme `k`, or is through when
/// there is none.
pub open spec fn visit(list: ListView, k: int) -> WalkState {
    if 0 <= k < list.morphemes.len() {
        WalkState::NeedSplit { index: k as usize, mode: Mode::A }
    } else {
        WalkState::Completed
    }
}

/// The state after `event` has answered `state`. Only a walk that waits for
/// the split of a morpheme of the list moves: a refusal ends it, an
/// inconsistent split ends it, a consistent one sends it on.
pub open spec fn walk_step(list: ListView, state: WalkState, event: EventView) -> WalkState {
    match state {
        WalkState::NeedSplit { index, .. } if index < list.morphemes.len() => match event {
            EventView::Failed => WalkState::SplitFailed { index },
            EventView::Parts(parts) => {
                let verdict = split_verdict(list.text, list.morphemes[index as int], parts);
                if verdict is Consistent {
                    visit(list, index + 1)
                } else {
                    WalkState::Inconsistent { index, verdict }
                }
            },
        },
        _ => state,
    }
}

/// The state of a walk over `list` that was answered with `events`.
pub open spec fn walk_run(list: ListView, events: Seq<EventView>) -> WalkState
    decreases events.len(),
{
    if events.len() == 0 {
        visit(list, 0)
    } else {
        walk_step(list, walk_run(list, events.drop_last()), events.last())
    }
}

/// How many morphemes from the front of `list` a walk in `state` has
/// visited. A state that names no morpheme of the list has nothing left to
/// visit.
pub open spec fn visited(list: ListView, state: WalkState) -> int {
    match state {
        WalkState::Completed => list.morphemes.len() as int,
        WalkState::NeedSplit { index, .. }
        | WalkState::SplitFailed { index }
        | WalkState::Inconsistent { index, .. } => if index < list.morphemes.len() {
            index + 1
        } else {
            list.morphemes.len() as int
        },
    }
}

/// A step never takes a walk back: what was visited stays visited, and the
/// walk moves on by one morpheme at most.
pub proof fn lemma_walk_never_goes_back(list: ListView, state: WalkState, event: EventView)
    requires
        list.morphemes.len() <= usize::MAX,
    ensures
        0 <= visited(list, state) <= visited(list, walk_step(list, state, event))
            <= list.morphemes.len(),
        visited(list, walk_step(list, state, event)) <= visited(list, state) + 1,
{
}

/// Whether event `i` is a split of morpheme `i` that the walk accepts.
pub open spec fn passes(list: ListView, events: Seq<EventView>, i: int) -> bool {
    events[i] matches EventView::Parts(parts) && split_verdict(
        list.text,
        list.morphemes[i],
        parts,
    ) is Consistent
}

/// A walk whose first `k` events all pass has visited `k` morphemes and turns
/// to the next; so a walk whose every split passes is completed by as many
/// events as the list has morphemes.
pub proof fn lemma_walk_passes_on(list: ListView, events: Seq<EventView>, k: int)
    requires
        list.morphemes.len() <= usize::MAX,
        0 <= k <= events.len(),
        k <= list.morphemes.len(),
        forall|i: int| 0 <= i < k ==> passes(list, events, i),
    ensures
        walk_run(list, events.take(k)) == visit(list, k),
    decreases k,
{
    if k > 0 {
        lemma_walk_passes_on(list, events, k - 1);
        assert(events.take(k).drop_last() =~= events.take(k - 1));
        assert(passes(list, events, k - 1));
    }
}

/// A walk that has ended stays where it ended, whatever events follow.
pub proof fn lemma_ended_walk_stays(list: ListView, events: Seq<EventView>, k: int)
    requires
        0 <= k <= events.len(),
        !(walk_run(list, events.take(k)) is NeedSplit),
    ensures
        walk_run(list, events) == walk_run(list, events.take(k)),
    decreases events.len() - k,
{
    if k < events.len() {
        let front = events.drop_last();
        assert(front.take(k) =~= events.take(k));
        lemma_ended_walk_stays(list, front, k);
    } else {
        assert(events.take(k) =~= events);
    }
}

/// A walk ends at the first event that does not pass, whatever follows it:
/// quietly when the split was refused, with the verdict when the split
/// contradicts the text.
pub proof fn lemma_walk_ends_at_first_failure(list: ListView, events: Seq<EventView>, k: int)
    requires
        list.morphemes.len() <= usize::MAX,
        0 <= k < events.len(),
        k < list.morphemes.len(),
        forall|i: int| 0 <= i < k ==> passes(list, events, i),
        !passes(list, events, k),
    ensures
        walk_run(list, events) == match events[k] {
            EventView::Failed => WalkState::SplitFailed { index: k as usize },
            EventView::Parts(parts) => WalkState::Inconsistent {
                index: k as usize,
                verdict: split_verdict(list.text, list.morphemes[k], parts),
            },
        },
{
    // the events ahead of event `k` take the walk to morpheme `k`
    lemma_walk_passes_on(list, events, k);
    // event `k` ends it there
    assert(events.take(k + 1).drop_last() =~= events.take(k));
    lemma_ended_walk_stays(list, events, k + 1);
}

/// A walk whose every split passes is completed once each morpheme has had
/// its event, whatever events follow.
pub proof fn lemma_walk_completes(list: ListView, events: Seq<EventView>)
    requires
        list.morphemes.len() <= usize::MAX,
        list.morphemes.len() <= events.len(),
        forall|i: int| 0 <= i < list.morphemes.len() ==> passes(list, events, i),
    ensures
        walk_run(list, events) == WalkState::Completed,
{
    lemma_walk_passes_on(list, events, list.morphemes.len() as int);
    lemma_ended_walk_stays(list, events, list.morphemes.len() as int);
}

/// Turns to morpheme `k`: takes its surface into `data` if there is one.
fn enter(list: &MorphemeList, k: usize, data: &mut String) -> (state: WalkState)
    requires
        k <= list@.morphemes.len(),
    ensures
        state == visit(list@, k as int),
        final(data)@ == old(data)@ + joined_surface(
            list@.morphemes.subrange(k as int, visited(list@, state)),
        ),
{
    if k < list.len() {
        data.append(list.get(k).surface.as_str());
        proof {
            // joining one surface alone gives that surface
            let one = list@.morphemes.subrange(k as int, k + 1);
            assert(joined_surface(one.drop_last()) =~= Seq::<char>::empty());
        }
        WalkState::NeedSplit { index: k, mode: Mode::A }
    } else {
        WalkState::Completed
    }
}

/// Starts a walk over `list`.
///
/// The surface of the first morpheme, if there is one, is appended to `data`.
pub fn begin(list: &MorphemeList, data: &mut String) -> (state: WalkState)
    ensures
        state == visit(list@, 0),
        final(data)@ == old(data)@ + joined_surface(
            list@.morphemes.take(visited(list@, state)),
        ),
{
    enter(list, 0, data)
}

/// Answers a waiting walk with the result of the split it asked for.
///
/// A walk that does not wait for a morpheme of `list` stays as it is. When
/// the walk moves on to the next morpheme, that morpheme's surface is
/// appended to `data`.
pub fn resume(
    list: &MorphemeList,
    state: WalkState,
    event: &SplitEvent,
    data: &mut String,
) -> (next: WalkState)
    ensures
        next == walk_step(list@, state, event@),
        final(data)@ == old(data)@ + joined_surface(
            list@.morphemes.subrange(visited(list@, state), visited(list@, next)),
        ),
{
    match state {
        WalkState::NeedSplit { index, .. } => {
            if index < list.len() {
                match event {
                    SplitEvent::Failed => WalkState::SplitFailed { index },
                    SplitEvent::Parts(parts) => {
                        let verdict = check_split(list.surface(), list.get(index), parts);
                        match verdict {
                            SplitVerdict::Consistent => enter(list, index + 1, data),
                            _ => WalkState::Inconsistent { index, verdict },
                        }
                    },
                }
            } else {
                state
            }
        },
        _ => state,
    }
}

/// Walks over `list`, answering each request for a split with the next of
/// `events`, and returns where the walk then stands.
///
/// The surfaces of the morphemes that the walk visits are appended to `data`
/// in order. Events that are left over when the walk has ended are not
/// looked at.
pub fn consume_mlist(
    list: &MorphemeList,
    events: &Vec<SplitEvent>,
    data: &mut String,
) -> (state: WalkState)
    ensures
        state == walk_run(list@, event_views(events@)),
        final(data)@ == old(data)@ + joined_surface(
            list@.morphemes.take(visited(list@, state)),
        ),
{
    let ghost all = event_views(events@);
    let count: usize = list.len();
    let mut state = begin(list, data);
    let mut i: usize = 0;
    while i < events.len()
        invariant
            i <= events@.len(),
            all == event_views(events@),
            state == walk_run(list@, all.take(i as int)),
            data@ == old(data)@ + joined_surface(list@.morphemes.take(visited(list@, state))),
            count == list@.morphemes.len(),
        decreases events@.len() - i,
    {
        let ghost before = state;
        state = resume(list, state, &events[i], data);
        proof {
            assert(all.take(i + 1).drop_last() =~= all.take(i as int));
            lemma_walk_never_goes_back(list@, before, events@[i as int]@);
            lemma_joined_surface_append(
                list@.morphemes,
                visited(list@, before),
                visited(list@, state),
            );
        }
        i += 1;
    }
    proof {
        assert(all.take(i as int) =~= all);
    }
    state
}

/// Joining the front of a sequence and then a stretch behind it joins the
/// longer front.
proof fn lemma_joined_surface_append(parts: Seq<MorphemeView>, a: int, b: int)
    requires
        0 <= a <= b <= parts.len(),
    ensures
        joined_surface(parts.take(b)) == joined_surface(parts.take(a)) + joined_surface(
            parts.subrange(a, b),
        ),
    decreases b - a,
{
    if a < b {
        lemma_joined_surface_append(parts, a, b - 1);
        assert(parts.take(b).drop_last() =~= parts.take(b - 1));
        assert(parts.subrange(a, b).drop_last() =~= parts.subrange(a, b - 1));
    }
}

} // verus!
