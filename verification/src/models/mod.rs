//! Data models: what wiktextract extracts and what Yomitan reads.
pub mod kaikki;
pub mod yomitan;
