//! A verified data-preparation and evaluation pipeline for a tabular binary
//! classification task: loading a delimited numeric table, assembling it
//! into a feature matrix with an aligned target vector, splitting it
//! deterministically into training and evaluation subsets, and scoring
//! predictions against ground truth with a confusion matrix.
//!
//! Feature values are carried as the bit patterns of 32-bit floating-point
//! numbers: the pipeline moves them, it never computes with them, so the
//! exact bits are what the contracts speak of.

pub mod error;
pub mod table;
pub mod dataset;
pub mod split;
pub mod eval;
