//! Move generation, evaluation, mate detection and search.

pub mod bounds;
pub mod checkmate;
pub mod complete;
pub mod evaluator;
pub mod legal;
pub mod minimax;
pub mod move_gen;
pub mod ordering;
pub mod rays;
pub mod searcher;
