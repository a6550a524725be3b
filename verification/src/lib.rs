//! Documentation for typst packages: what a package binds, and how it is shown
//! in markdown.

pub mod annotations;
pub mod collections;
pub mod docs;
pub mod docs_laws;
pub mod document;
pub mod encoding;
pub mod journey_laws;
pub mod listing;
pub mod manifest;
pub mod markdown;
pub mod markdown_laws;
pub mod module_laws;
pub mod order;
pub mod outcome_laws;
pub mod package;
pub mod path;
pub mod plan;
pub mod plan_laws;
pub mod records;
pub mod scan;
pub mod scan_laws;
pub mod section_laws;
pub mod signature;
pub mod signature_laws;
pub mod symbol_laws;
pub mod symbols;
pub mod table;
pub mod text;
pub mod text_laws;
pub mod tree_laws;
pub mod value;
pub mod view_laws;
