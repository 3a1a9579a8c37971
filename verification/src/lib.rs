//! Core of a document-compilation backend built around an external
//! typesetting toolchain: it turns the compiler's free-form log into typed
//! diagnostics, extracts the package dependencies a document declares,
//! reconciles them against the toolchain's installed-module registry, and
//! drives the two-pass compile control flow. Everything here is a pure
//! function of plain values; the processes and files themselves are the
//! shell's business.
//!
//! - [`text`] — character-sequence utilities: trimming, searching,
//!   splitting, numerals.
//! - [`diagnostics`] — the log parser and its error/warning records.
//! - [`deps`] — the dependency extractor for package directives.
//! - [`resolve`] — resolution against registry lookups and batch-install
//!   aggregation.
//! - [`pipeline`] — the compile request/outcome types, engine selection,
//!   the two-pass state machine, and the workspace path check.
//! - [`pkg_manager`] — parsers for the package tool's output and the
//!   install/remove/update outcomes.

pub mod deps;
pub mod diagnostics;
pub mod pipeline;
pub mod pkg_manager;
pub mod resolve;
pub mod text;
