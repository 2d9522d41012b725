//! Scanning of FB2 books into sections and entity candidates, and the
//! bookkeeping around a local language model that classifies them.
pub mod text;
pub mod fb2scan;
pub mod entity_extractor;
pub mod inference;
pub mod gpu_llm;
pub mod extractor;
pub mod cli;
pub mod knowledge;
