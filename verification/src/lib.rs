//! Play-history extraction from yearly recap documents.
//!
//! A recap document is a deeply nested JSON value whose shape is not fixed.
//! This library walks such documents and makes a table of them:
//!
//! - [`json`] holds the document model, [`document`] reads JSON text into it;
//! - [`identifiers`] collects every identifier that a document names;
//! - [`playtime`] finds the play-time records and the section of each,
//!   with [`path`] as the model of sections and [`calendar`] for the months
//!   of dated entries;
//! - [`section`] turns a section into its display label;
//! - [`emitter`] puts rows in order and renders them as CSV text;
//! - [`report`] runs these steps over the documents of a run;
//! - [`names`] and [`lookups`] keep the display names that lookups find;
//! - [`scrape`] and [`replay_url`] make the stored document of a fetched
//!   page;
//! - [`text`], [`decimal`] and [`lexical`] are the text helpers below them.
//!
//! Every function is verified against the contract it states. What is
//! believed of other crates, and not proved, is said where they are called.

pub mod calendar;
pub mod decimal;
pub mod document;
pub mod emitter;
pub mod identifiers;
pub mod json;
pub mod lexical;
pub mod lookups;
pub mod names;
pub mod path;
pub mod playtime;
pub mod replay_url;
pub mod report;
pub mod scrape;
pub mod section;
pub mod text;
