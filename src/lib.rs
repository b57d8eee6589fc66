//! Runs a build action once for each combination of a crate's optional
//! features: the matrix of combinations, its partition into chunks, the
//! command line for each combination, and the tally of outcomes.
pub mod chunk;
pub mod command;
pub mod matrix;
pub mod run;
