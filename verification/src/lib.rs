//! The driver around a Mycelium checking kernel: what to do with each reply of the kernel, how the
//! refusals are aggregated, and what a caller is told.
//!
//! The kernel itself (the parser, the checker, the diagnostic baseline) and the file system stay
//! outside. This library says what to ask of them, takes their replies as plain values, and is
//! verified for every reply they can give. A refusal is always an explicit finding with a site,
//! never a silent pass, and no finer class or culprit is claimed than the replies show.

pub mod cli;
pub mod closure;
pub mod diagnostics;
pub mod distinct;
pub mod json;
pub mod laws;
pub mod oracle;
pub mod order;
pub mod output;
pub mod phylum;
pub mod project;
pub mod resolution;
pub mod session;
pub mod sources;
pub mod syntax;
pub mod text;

pub use crate::diagnostics::{check_source, Finding, FindingKind, Level, Report};
pub use crate::phylum::{
    NoduleClass, NoduleVerdict, PhylumError, PhylumErrorKind, PhylumReport,
};
pub use crate::project::ResolveError;
pub use crate::session::check_phylum_sources;
pub use crate::sources::check_sources;
