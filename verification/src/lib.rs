//! Building blocks for Yomitan dictionaries made from Kaikki (wiktextract) data.
pub mod cli;
pub mod dict;
pub mod lang;
pub mod models;
pub mod order;
pub mod path;
pub mod seqs;
pub mod sort;
pub mod tags;
pub mod text;
pub mod utils;
