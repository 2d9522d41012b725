//! Finding candidate entity names in a book and preparing them for
//! classification by a language model.
pub mod tables;
pub mod segmentation;
pub mod scanner;
pub mod extractor;
pub mod ranking;
pub mod xml;
