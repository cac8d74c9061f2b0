//! What holds of the library as a whole, said of inputs and results.
//!
//! Each law is a public proof function. It speaks of sequences, sizes and texts, and of how
//! one result relates to another.

pub mod browsing;
pub mod classes;
pub mod duplicates;
pub mod growth;
pub mod guard;
pub mod leaks;
pub mod leftovers;
pub mod lists;
pub mod ordering;
pub mod outliers;
pub mod paths;
pub mod reports;
pub mod selection;
pub mod sizes;
pub mod texts;
