//! Enumerates every word that can be built by picking one character from each
//! of a sequence of positional character sets ("slots"), in odometer order, and
//! optionally keeps only the words found in a reference word list.

pub mod slot;
mod text;
pub mod odometer;
pub mod word_list;
pub mod default_words;
pub mod generator;
pub mod laws;

pub use generator::{AllCombinationsIter, WordGenerator, WordIter};
pub use slot::Slot;
