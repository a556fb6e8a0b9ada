//! The dictionaries: what goes into each kind, and their index.
pub mod common;
pub mod render;
pub mod scan;
pub mod writer;
pub mod glossary;
pub mod index;
pub mod ipa;
pub mod locale;
pub mod main;
