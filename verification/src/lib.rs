//! Bounded breadth-first crawling and selector-based extraction.

pub mod address;
pub mod crawl;
pub mod document;
pub mod extract;
pub mod links;
pub mod pattern;
pub mod rules;
pub mod schedule;
pub mod table;
pub mod text;
