//! A diagnostic correlation and explanation engine for a generics-heavy,
//! component/provider based programming framework.
//!
//! The crate consumes structured compiler diagnostics, recognizes the ones
//! that are artifacts of the framework's code generation, merges records that
//! describe the same root cause, and re-renders them as a single
//! framework-aware explanation that names the missing capability and the
//! record field responsible.

pub mod cgp_diagnostic;
pub mod cgp_patterns;
pub mod diagnostic_db;
pub mod error_formatting;
pub mod raw_diagnostic;
pub mod render;
pub mod render_compiler_message;
pub mod run_check;
pub mod root_cause;
pub mod text;
