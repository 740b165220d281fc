use sudachi_harness::driver::{Failure, Report};
use sudachi_harness::export::{parse, rows};
use sudachi_harness::morpheme::{Morpheme, MorphemeList, WordId};

fn record(begin_c: usize, end_c: usize, begin: usize, end: usize, surface: &str) -> Morpheme {
    Morpheme {
        begin,
        end,
        begin_c,
        end_c,
        word_id: WordId { dic: 0, word: 0 },
        part_of_speech_id: 0,
        part_of_speech: vec![
            String::from("名詞"),
            String::from("固有名詞"),
            String::from("地名"),
            String::from("一般"),
            String::from("*"),
            String::from("*"),
        ],
        surface: String::from(surface),
        dictionary_form: format!("{}/d", surface),
        normalized_form: format!("{}/n", surface),
        reading_form: format!("{}/r", surface),
        dictionary_form_word_id: -1,
        a_unit_split: Vec::new(),
        b_unit_split: Vec::new(),
        synonym_group_ids: Vec::new(),
    }
}

fn sample() -> MorphemeList {
    MorphemeList::new(
        String::from("東京都に行く"),
        vec![
            record(0, 3, 0, 9, "東京都"),
            record(3, 4, 9, 12, "に"),
            record(4, 6, 12, 18, "行く"),
        ],
    )
    .unwrap()
}

fn strings(fields: [&str; 6]) -> Vec<String> {
    fields.iter().map(|f| String::from(*f)).collect()
}

#[test]
fn parse_of_an_empty_text_is_empty() {
    let list = MorphemeList::new(String::new(), Vec::new()).unwrap();
    assert_eq!(parse(Report::Tokenized(list)), Ok(Vec::new()));
}

#[test]
fn parse_gives_one_row_per_morpheme() {
    let found = parse(Report::Tokenized(sample())).unwrap();
    assert_eq!(
        found,
        vec![
            strings(["0", "3", "名詞", "東京都", "東京都/d", "東京都/r"]),
            strings(["3", "4", "名詞", "に", "に/d", "に/r"]),
            strings(["4", "6", "名詞", "行く", "行く/d", "行く/r"]),
        ]
    );
}

#[test]
fn parse_rows_tell_the_character_offsets() {
    let list = sample();
    let found = rows(&list);
    assert_eq!(found.len(), list.len());
    for i in 0..list.len() {
        assert_eq!(found[i].len(), 6);
        assert_eq!(found[i][0].parse::<usize>(), Ok(list.get(i).begin_c));
        assert_eq!(found[i][1].parse::<usize>(), Ok(list.get(i).end_c));
    }
}

#[test]
fn parse_writes_large_offsets_in_full() {
    let list = MorphemeList::new(
        String::from("ab"),
        vec![record(1234567, 18446744073709551615, 0, 2, "ab")],
    )
    .unwrap();
    let found = rows(&list);
    assert_eq!(found[0][0], "1234567");
    assert_eq!(found[0][1], "18446744073709551615");
}

#[test]
fn parse_takes_the_first_tag_only() {
    let mut m = record(0, 1, 0, 1, "a");
    m.part_of_speech = vec![String::from("助詞")];
    let list = MorphemeList::new(String::from("a"), vec![m]).unwrap();
    assert_eq!(rows(&list), vec![strings(["0", "1", "助詞", "a", "a/d", "a/r"])]);
}

#[test]
fn parse_twice_gives_the_same_rows() {
    let first = parse(Report::Tokenized(sample()));
    let second = parse(Report::Tokenized(sample()));
    assert_eq!(first, second);
    assert_eq!(parse(Report::ConfigurationFailed), parse(Report::ConfigurationFailed));
}

#[test]
fn parse_hands_on_a_configuration_failure() {
    let found = parse(Report::ConfigurationFailed);
    assert_eq!(found, Err(Failure::Configuration));
    assert_ne!(found, Ok(Vec::new()));
}

#[test]
fn parse_hands_on_a_tokenization_failure() {
    assert_eq!(parse(Report::TokenizationFailed), Err(Failure::Tokenization));
}
