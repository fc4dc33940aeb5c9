//! Small verified engines: double-entry book keeping (journal, ledgers,
//! trial balance), dates in words, a keyword lexer for a small JavaScript
//! subset, and the piece kinds of a carrom board.

pub mod accounting;
pub mod books_laws;
pub mod calculator;
pub mod carrom;
pub mod dates;
pub mod lexer;
pub mod samples;
pub mod text;
