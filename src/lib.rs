//! Page naming, argument handling and document addressing for a tool that
//! splits a PDF into per-page SVG files and merges SVG files into one PDF.

pub mod naming;
pub mod merge;
pub mod uri;
