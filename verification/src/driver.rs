//! The harness driver: what is asked of the engine for one text, and what
//! becomes of the engine's answer.
//!
//! Loading a dictionary and running the engine happen outside. The driver
//! says what is to be done, as a [`Request`], and is told how it ended, as a
//! [`Report`]. A failure ends the run: nothing is tried again and no part of
//! a result is kept.

use crate::morpheme::{ListView, Mode, MorphemeList};
use vstd::prelude::*;

verus! {

/// Why a run produced no morpheme list.
#[derive(Clone, Copy, Debug, PartialEq, Eq, Structural)]
pub enum Failure {
    /// The configuration could not be loaded or the dictionary not opened.
    Configuration,
    /// The engine reported an error while tokenizing.
    Tokenization,
}

/// What has to be done outside to analyze one text.
#[derive(Clone, Debug, PartialEq, Eq)]
pub struct Request {
    /// Where the configuration that names the dictionary is found.
    pub config_path: String,
    /// The text to push into a freshly reset session.
    pub text: String,
    /// The splitting mode of the session.
    pub mode: Mode,
}

/// How carrying out a [`Request`] ended.
#[derive(Debug, PartialEq, Eq)]
pub enum Report {
    /// The configuration or the dictionary could not be loaded.
    ConfigurationFailed,
    /// The engine reported an error while tokenizing.
    TokenizationFailed,
    /// The engine tokenized the text into this list.
    Tokenized(MorphemeList),
}

/// The mathematical value of a [`Report`].
pub enum ReportView {
    ConfigurationFailed,
    TokenizationFailed,
    Tokenized(ListView),
}

impl View for Report {
    type V = ReportView;

    open spec fn view(&self) -> ReportView {
        match self {
            Report::ConfigurationFailed => ReportView::ConfigurationFailed,
            Report::TokenizationFailed => ReportView::TokenizationFailed,
            Report::Tokenized(list) => ReportView::Tokenized(list@),
        }
    }
}

/// What a run that ended with `report` produces: the list that the engine
/// made, or the failure that was reported in its place.
pub open spec fn run_result(report: ReportView) -> Result<ListView, Failure> {
    match report {
        ReportView::ConfigurationFailed => Err(Failure::Configuration),
        ReportView::TokenizationFailed => Err(Failure::Tokenization),
        ReportView::Tokenized(list) => Ok(list),
    }
}

/// The mathematical value of what a run produces.
pub open spec fn run_view(outcome: Result<MorphemeList, Failure>) -> Result<ListView, Failure> {
    match outcome {
        Ok(list) => Ok(list@),
        Err(failure) => Err(failure),
    }
}

/// The request that the analysis of `data` under the configuration at
/// `config_path` starts with: the text is tokenized whole, in mode `B`.
pub fn request(data: String, config_path: String) -> (r: Request)
    ensures
        r.text == data,
        r.config_path == config_path,
        r.mode == Mode::B,
{
    Request { config_path, text: data, mode: Mode::B }
}

/// Turns the report of a run into the morpheme list or the failure that
/// ends the run.
pub fn tokenized(report: Report) -> (r: Result<MorphemeList, Failure>)
    ensures
        run_view(r) == run_result(report@),
{
    match report {
        Report::ConfigurationFailed => Err(Failure::Configuration),
        Report::TokenizationFailed => Err(Failure::Tokenization),
        Report::Tokenized(list) => Ok(list),
    }
}

} // verus!
