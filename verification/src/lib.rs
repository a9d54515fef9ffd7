//! The decision logic of a PDF engine's facade, verified: signature coverage
//! and verdicts, redaction bookkeeping, font subsetting reports, XPS package
//! recognition and the smaller byte-level rules they rest on.

pub mod color_space;
pub mod join;
pub mod redact;
pub mod render_part;
pub mod resources;
pub mod shaping;
pub mod signature;
pub mod structure;
pub mod subset;
pub mod text;
pub mod verdict;
pub mod write;
pub mod xps;
