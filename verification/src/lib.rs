//! Reconstruction of structured label text from raw OCR fragments.
//!
//! The library turns an unordered bag of OCR text fragments — each a string
//! with a quadrilateral bounding box — into a small, ordered, validated set
//! of logical text lines, together with one crop request per retained line.
//! It also provides the lexical validator used as a fallback filter and the
//! failure bookkeeping for batch runs over many labels.

pub mod annotation;
pub mod batch;
pub mod geometry;
pub mod lexicon;
pub mod reconstruct;
pub mod unicode;
