//! Pareto local search over box layouts: the archive of candidate layouts, the
//! dominance and Pareto-front rules, the operators that steer the search, and
//! the bookkeeping of a layout's columns.
pub mod archive;
pub mod collision;
pub mod fitness;
pub mod pareto;
pub mod pls;
mod random;
pub mod search;
pub mod seqs;
pub mod solution;
