//! Host side of a plugin protocol for text checkers.
//!
//! A host discovers checker plugins, asks each of them for findings about a
//! text, and merges what they return into a single list of annotations.
//! This crate holds the rules of that protocol: the data that crosses the
//! plugin boundary, the life cycle of the arrays that carry it, the
//! negotiation that decides whether a shared library becomes a provider, and
//! the order in which results are merged.
//!
//! - [`kind`], [`annotation`], [`text`]: the data model.
//! - [`parray`]: arrays that are cleaned up by whoever made them.
//! - [`provider`]: what a plugin provides, and [`sample`], a provider that
//!   needs no plugin.
//! - [`discovery`], [`loader`]: where plugins are looked for and how a
//!   candidate becomes a provider.
//! - [`reading`], [`host`]: reading a provider's answer and asking all
//!   providers; [`exchange`]: the log of what passes between them.
//! - [`capi`]: the checker for callers from other languages.
//! - [`spelling`], [`grammar`]: what providers built on a dictionary or on
//!   a grammar service hand to the host.

pub mod annotation;
pub mod capi;
pub mod discovery;
pub mod error;
pub mod exchange;
pub mod grammar;
pub mod host;
pub mod kind;
pub mod loader;
pub mod parray;
pub mod provider;
pub mod reading;
pub mod sample;
pub mod spelling;
pub mod text;

pub use annotation::{Annotation, AnnotationView, Properties};
pub use error::LoadError;
pub use host::{Loader, Patronus, Provider};
pub use kind::AnnotationKind;
