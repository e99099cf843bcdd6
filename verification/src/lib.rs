//! Setting up a word-guessing game: which words of a list have the wanted
//! length, and which of them becomes the word to guess.

pub mod random;
pub mod text;
pub mod word_reader;
pub mod word_validation;
