//! A verified consumer of a morphological analysis engine.
//!
//! The engine, with its dictionary and its tokenizer session, stays outside
//! this crate. Here is everything that a harness decides about what the
//! engine hands out, on plain records and proved with Verus:
//!
//! - [`morpheme`]: the records, and the list that only holds sound ones;
//! - [`split`]: the check of a morpheme's finer units against the text;
//! - [`cover`]: what a consistent split says about spans and surfaces;
//! - [`walk`]: the consistency walk, as a machine that asks for splits;
//! - [`driver`]: what is asked of the engine, and how a run can fail;
//! - [`export`]: the rows of text fields that a list is flattened into;
//! - [`decimal`]: the notation of offsets in those rows.

pub mod cover;
pub mod decimal;
pub mod driver;
pub mod export;
pub mod morpheme;
pub mod split;
pub mod walk;
