//! Reverse-mode automatic differentiation over a recorded tape, together with
//! small expression evaluators, a line search and a versioned table.
pub mod command;
pub mod grep;
pub mod logical;
pub mod mvcc;
pub mod numerical;
pub mod tape;
pub mod text;
