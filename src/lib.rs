//! Extraction of benchmark records from a performance report page.
//!
//! The page is a flat run of scale headings (`h2`), branch headings (`h3`) and
//! result tables inside `body`. The library turns the parsed document into
//! records that carry the scale and branch in force where each table row stands.
pub mod text;
pub mod extract;
pub mod dom;
pub mod report;
