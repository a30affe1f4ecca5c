//! Parser and reshaper for LANL kilonova spectrum tables.
//!
//! A spectrum file is plain text: time blocks separated by two blank lines,
//! each a header line that ends in the block's time, followed by one row per
//! wavelength bin. The crate turns such a text into a time sequence, a
//! wavelength-bin table and a flux cube of shape (time, wavelength, angle),
//! and reads the physical parameters of the run out of the file's name.
//!
//! Numbers are carried as the literals that spell them: the crate decides
//! which fields are numbers and where each one belongs, and leaves their
//! numeric value to the caller.

pub mod arrays;
pub mod block;
pub mod error;
pub mod laws;
pub mod literal;
pub mod meta;
pub mod seqs;
pub mod spectrum;
pub mod text;
