//! A preprocessor for combined shader sources: one text that holds the code of
//! several pipeline stages is split into one variant per stage, and the custom
//! pragmas it carries are turned into pipeline metadata.

pub mod text;
pub mod types;
pub mod pragma;
pub mod scan;
pub mod assemble;
pub mod driver;
pub mod lazy;
pub mod syntax;
pub mod directive;
