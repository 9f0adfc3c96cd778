//! A 32-square bitboard that is built up by toggling squares one at a time,
//! the decisions of the interactive session that drives it, and the text
//! grid that shows it.
pub mod board;
pub mod command;
pub mod grid;
