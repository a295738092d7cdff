//! Retrieval-side core of a sudoku grid downloader: extracts a puzzle record
//! from the HTML a puzzle service returns, and serializes it as a masked,
//! comma-delimited 9x9 grid.

pub mod difficulty;
pub mod extract;
pub mod puzzle;
