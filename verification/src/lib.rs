//! Keeps documentation in step with the code it quotes.
//!
//! Source files mark blocks of content with a start marker that carries an
//! identifier, and an end marker. `parser` extracts the blocks of a file, one
//! pattern of markers beside the other (`pattern`, `scan`, `identifier`).
//! `replacer` puts the extracted content into the documents that hold a pair
//! of markers for its identifier, and says for each identifier what it did.
//! `collect` says which files are looked at, and `out` how the extracted
//! content is exported.
//!
//! The library reads and writes no file: it takes the text of a file and
//! returns the new text, and says what is to be written. The markers are
//! regular expressions of the `regex` crate; `matcher` holds what is taken
//! from that crate and believed of it.

pub mod collect;
pub mod errors;
pub mod identifier;
pub mod matcher;
pub mod out;
pub mod parser;
pub mod paths;
pub mod pattern;
pub mod replacer;
pub mod scan;
pub mod text;
