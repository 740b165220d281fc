use sudachi_harness::morpheme::{Mode, Morpheme, MorphemeList, WordId};
use sudachi_harness::split::SplitVerdict;
use sudachi_harness::walk::{begin, consume_mlist, resume, SplitEvent, WalkState};

fn record(begin: usize, end: usize, surface: &str) -> Morpheme {
    Morpheme {
        begin,
        end,
        begin_c: 0,
        end_c: 0,
        word_id: WordId { dic: 0, word: 0 },
        part_of_speech_id: 0,
        part_of_speech: vec![String::from("noun")],
        surface: String::from(surface),
        dictionary_form: String::from(surface),
        normalized_form: String::from(surface),
        reading_form: String::from(surface),
        dictionary_form_word_id: -1,
        a_unit_split: Vec::new(),
        b_unit_split: Vec::new(),
        synonym_group_ids: Vec::new(),
    }
}

fn sample() -> MorphemeList {
    MorphemeList::new(
        String::from("東京都に行く"),
        vec![record(0, 9, "東京都"), record(9, 12, "に"), record(12, 18, "行く")],
    )
    .unwrap()
}

fn sample_events() -> Vec<SplitEvent> {
    vec![
        SplitEvent::Parts(vec![record(0, 6, "東京"), record(6, 9, "都")]),
        SplitEvent::Parts(Vec::new()),
        SplitEvent::Parts(vec![record(12, 18, "行く")]),
    ]
}

#[test]
fn walk_over_nothing_is_complete_at_once() {
    let list = MorphemeList::new(String::new(), Vec::new()).unwrap();
    let mut data = String::from("kept");
    assert_eq!(begin(&list, &mut data), WalkState::Completed);
    assert_eq!(data, "kept");
    let mut data = String::from("kept");
    assert_eq!(consume_mlist(&list, &Vec::new(), &mut data), WalkState::Completed);
    assert_eq!(data, "kept");
    assert_eq!(consume_mlist(&list, &sample_events(), &mut data), WalkState::Completed);
    assert_eq!(data, "kept");
}

#[test]
fn walk_begins_with_the_first_morpheme() {
    let mut data = String::new();
    assert_eq!(begin(&sample(), &mut data), WalkState::NeedSplit { index: 0, mode: Mode::A });
    assert_eq!(data, "東京都");
}

#[test]
fn walk_asks_for_the_finest_split() {
    let list = sample();
    let mut data = String::new();
    let mut state = begin(&list, &mut data);
    for event in sample_events() {
        assert!(matches!(state, WalkState::NeedSplit { mode: Mode::A, .. }));
        state = resume(&list, state, &event, &mut data);
    }
    assert_eq!(state, WalkState::Completed);
}

#[test]
fn walk_step_by_step() {
    let list = sample();
    let events = sample_events();
    let mut data = String::from(">");
    let state = begin(&list, &mut data);
    assert_eq!(state, WalkState::NeedSplit { index: 0, mode: Mode::A });
    assert_eq!(data, ">東京都");
    let state = resume(&list, state, &events[0], &mut data);
    assert_eq!(state, WalkState::NeedSplit { index: 1, mode: Mode::A });
    assert_eq!(data, ">東京都に");
    let state = resume(&list, state, &events[1], &mut data);
    assert_eq!(state, WalkState::NeedSplit { index: 2, mode: Mode::A });
    assert_eq!(data, ">東京都に行く");
    let state = resume(&list, state, &events[2], &mut data);
    assert_eq!(state, WalkState::Completed);
    assert_eq!(data, ">東京都に行く");
}

#[test]
fn walk_through_consistent_splits_completes() {
    let mut data = String::new();
    assert_eq!(consume_mlist(&sample(), &sample_events(), &mut data), WalkState::Completed);
    assert_eq!(data, "東京都に行く");
}

#[test]
fn walk_without_events_waits_for_the_first_split() {
    let mut data = String::new();
    let state = consume_mlist(&sample(), &Vec::new(), &mut data);
    assert_eq!(state, WalkState::NeedSplit { index: 0, mode: Mode::A });
    assert_eq!(data, "東京都");
}

#[test]
fn walk_with_too_few_events_waits_for_the_next_split() {
    let mut events = sample_events();
    events.truncate(2);
    let mut data = String::new();
    let state = consume_mlist(&sample(), &events, &mut data);
    assert_eq!(state, WalkState::NeedSplit { index: 2, mode: Mode::A });
    assert_eq!(data, "東京都に行く");
}

#[test]
fn walk_ends_quietly_when_a_split_is_refused() {
    let mut events = sample_events();
    events[1] = SplitEvent::Failed;
    let mut data = String::new();
    let state = consume_mlist(&sample(), &events, &mut data);
    assert_eq!(state, WalkState::SplitFailed { index: 1 });
    assert_eq!(data, "東京都に");
}

#[test]
fn walk_ends_when_the_first_split_is_refused() {
    let events = vec![SplitEvent::Failed];
    let mut data = String::new();
    assert_eq!(consume_mlist(&sample(), &events, &mut data), WalkState::SplitFailed { index: 0 });
    assert_eq!(data, "東京都");
}

#[test]
fn walk_stops_at_an_inconsistent_split() {
    let mut events = sample_events();
    events[0] = SplitEvent::Parts(vec![record(0, 6, "東京"), record(6, 9, "県")]);
    let mut data = String::new();
    let state = consume_mlist(&sample(), &events, &mut data);
    assert_eq!(
        state,
        WalkState::Inconsistent { index: 0, verdict: SplitVerdict::SurfaceMismatch { index: 1 } }
    );
    assert_eq!(data, "東京都");
}

#[test]
fn walk_stops_at_a_split_of_the_wrong_length() {
    let mut events = sample_events();
    events[2] = SplitEvent::Parts(vec![record(12, 15, "行")]);
    let mut data = String::new();
    let state = consume_mlist(&sample(), &events, &mut data);
    assert_eq!(state, WalkState::Inconsistent { index: 2, verdict: SplitVerdict::LengthMismatch });
    assert_eq!(data, "東京都に行く");
}

#[test]
fn walk_does_not_look_at_events_after_its_end() {
    let mut events = sample_events();
    events[0] = SplitEvent::Failed;
    events[1] = SplitEvent::Parts(vec![record(0, 99, "?")]);
    let mut data = String::new();
    assert_eq!(consume_mlist(&sample(), &events, &mut data), WalkState::SplitFailed { index: 0 });
    let mut events = sample_events();
    events.push(SplitEvent::Failed);
    assert_eq!(consume_mlist(&sample(), &events, &mut data), WalkState::Completed);
}

#[test]
fn walk_that_has_ended_stays_where_it_is() {
    let list = sample();
    let event = SplitEvent::Parts(vec![record(0, 6, "東京"), record(6, 9, "都")]);
    let ended = [
        WalkState::Completed,
        WalkState::SplitFailed { index: 0 },
        WalkState::Inconsistent { index: 0, verdict: SplitVerdict::LengthMismatch },
    ];
    for state in ended {
        let mut data = String::from("kept");
        assert_eq!(resume(&list, state, &event, &mut data), state);
        assert_eq!(resume(&list, state, &SplitEvent::Failed, &mut data), state);
        assert_eq!(data, "kept");
    }
}

#[test]
fn walk_that_waits_for_no_morpheme_of_the_list_stays_where_it_is() {
    let list = sample();
    let state = WalkState::NeedSplit { index: 3, mode: Mode::A };
    let mut data = String::from("kept");
    assert_eq!(resume(&list, state, &SplitEvent::Failed, &mut data), state);
    assert_eq!(resume(&list, state, &SplitEvent::Parts(Vec::new()), &mut data), state);
    assert_eq!(data, "kept");
}

#[test]
fn walk_judges_parts_against_the_whole_text() {
    // the offsets of the parts count from the start of the text, not of the parent
    let list = sample();
    let state = WalkState::NeedSplit { index: 2, mode: Mode::A };
    let mut data = String::new();
    let relative = SplitEvent::Parts(vec![record(0, 3, "行"), record(3, 6, "く")]);
    assert_eq!(
        resume(&list, state, &relative, &mut data),
        WalkState::Inconsistent { index: 2, verdict: SplitVerdict::SurfaceMismatch { index: 0 } }
    );
    let absolute = SplitEvent::Parts(vec![record(12, 15, "行"), record(15, 18, "く")]);
    assert_eq!(resume(&list, state, &absolute, &mut data), WalkState::Completed);
}
