//! The main dictionary: lemmas with their glosses, and forms pointing back to them.
pub mod ir;
pub mod locale;
pub mod patterns;
pub mod preprocess;
pub mod yomitan;
pub mod glosses;
pub mod terms;
pub mod senses;
pub mod postprocess;
pub mod main_dict;
