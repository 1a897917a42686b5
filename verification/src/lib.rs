//! Harvests competition-problem pages from a wiki, splits each page's markup
//! into a problem fragment and a solution fragment, and aggregates the results
//! by year with problems ordered ascending by number.

pub mod aops;
pub mod dom;
pub mod extract;
pub mod harvest;
pub mod text;
