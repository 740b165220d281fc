//! The flattening export: one row of six text fields for every morpheme.

use crate::decimal::{decimal, decimal_string, decimal_value, lemma_decimal_value_of_decimal};
use crate::driver::{run_result, tokenized, Failure, Report, ReportView};
use crate::morpheme::{Morpheme, MorphemeList, MorphemeView};
use vstd::prelude::*;

verus! {

/// The row of a morpheme: where it begins and ends, counted in characters
/// and written in decimal, its primary tag, its surface, its dictionary form
/// and its reading form.
pub open spec fn row_of(m: MorphemeView) -> Seq<Seq<char>> {
    seq![
        decimal(m.begin_c),
        decimal(m.end_c),
        m.part_of_speech[0],
        m.surface,
        m.dictionary_form,
        m.reading_form,
    ]
}

/// One row for every morpheme, in order.
pub open spec fn rows_of(morphemes: Seq<MorphemeView>) -> Seq<Seq<Seq<char>>> {
    Seq::new(morphemes.len(), |i: int| row_of(morphemes[i]))
}

/// What an export returns for `report`: the rows of the list that the run
/// produced, or the failure that ended the run.
pub open spec fn parse_result(report: ReportView) -> Result<Seq<Seq<Seq<char>>>, Failure> {
    match run_result(report) {
        Ok(list) => Ok(rows_of(list.morphemes)),
        Err(failure) => Err(failure),
    }
}

/// The mathematical value of what an export returns.
pub open spec fn outcome_view(outcome: Result<Vec<Vec<String>>, Failure>) -> Result<
    Seq<Seq<Seq<char>>>,
    Failure,
> {
    match outcome {
        Ok(rows) => Ok(rows.deep_view()),
        Err(failure) => Err(failure),
    }
}

/// The row of one morpheme.
fn row(m: &Morpheme) -> (r: Vec<String>)
    requires
        m@.has_primary_tag(),
    ensures
        r.deep_view() == row_of(m@),
{
    let mut r: Vec<String> = Vec::new();
    r.push(decimal_string(m.begin_c));
    r.push(decimal_string(m.end_c));
    r.push(m.part_of_speech[0].clone());
    r.push(m.surface.clone());
    r.push(m.dictionary_form.clone());
    r.push(m.reading_form.clone());
    r
}

/// The rows of a list, one for every morpheme and in the list's order.
pub fn rows(list: &MorphemeList) -> (r: Vec<Vec<String>>)
    ensures
        r.deep_view() == rows_of(list@.morphemes),
{
    let mut r: Vec<Vec<String>> = Vec::new();
    let mut i: usize = 0;
    while i < list.len()
        invariant
            i <= list@.morphemes.len(),
            r@.len() == i,
            forall|j: int|
                0 <= j < i ==> (#[trigger] r@[j]).deep_view() == row_of(list@.morphemes[j]),
        decreases list@.morphemes.len() - i,
    {
        let next = row(list.get(i));
        r.push(next);
        i += 1;
    }
    r
}

/// Turns the report of an analysis into rows.
///
/// A reported failure is handed on as it is, and never as an empty sequence
/// of rows. A reported list gives one row for each of its morphemes.
pub fn parse(report: Report) -> (r: Result<Vec<Vec<String>>, Failure>)
    ensures
        outcome_view(r) == parse_result(report@),
        report is ConfigurationFailed ==> r == Err::<Vec<Vec<String>>, Failure>(
            Failure::Configuration,
        ),
        report is TokenizationFailed ==> r == Err::<Vec<Vec<String>>, Failure>(
            Failure::Tokenization,
        ),
        report matches Report::Tokenized(list) ==> r matches Ok(found) && found@.len()
            == list@.morphemes.len(),
{
    match tokenized(report) {
        Ok(list) => {
            let found = rows(&list);
            assert(found.deep_view().len() == found@.len());
            Ok(found)
        },
        Err(failure) => Err(failure),
    }
}

/// The rows tell the character offsets exactly: there is one row for each
/// morpheme, and reading its first two fields as decimal numbers gives the
/// morpheme's begin and end.
pub proof fn lemma_rows_tell_offsets(morphemes: Seq<MorphemeView>, i: int)
    requires
        0 <= i < morphemes.len(),
    ensures
        rows_of(morphemes).len() == morphemes.len(),
        rows_of(morphemes)[i].len() == 6,
        decimal_value(rows_of(morphemes)[i][0]) == morphemes[i].begin_c,
        decimal_value(rows_of(morphemes)[i][1]) == morphemes[i].end_c,
{
    lemma_decimal_value_of_decimal(morphemes[i].begin_c);
    lemma_decimal_value_of_decimal(morphemes[i].end_c);
}

/// An export is a function of the report: two reports of the same value
/// give outcomes of the same value.
pub proof fn lemma_parse_is_deterministic(
    first: Report,
    second: Report,
    first_outcome: Result<Vec<Vec<String>>, Failure>,
    second_outcome: Result<Vec<Vec<String>>, Failure>,
)
    requires
        first@ == second@,
        outcome_view(first_outcome) == parse_result(first@),
        outcome_view(second_outcome) == parse_result(second@),
    ensures
        outcome_view(first_outcome) == outcome_view(second_outcome),
{
}

} // verus!
