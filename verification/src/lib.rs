//! Verified core of a project-scaffolding tool.
//!
//! Given a named template, the tool resolves where the template lives (a local
//! cache directory or a remote git repository found through a registry),
//! materializes it, parses its manifest, collects typed answers for the
//! manifest's questions, and rewrites placeholder tokens inside the declared
//! file set.  This crate holds the decision and rewriting logic of that
//! pipeline, specified and proved; the surrounding process (network, git,
//! filesystem, terminal) drives it from outside with plain values.

pub mod answer;
pub mod cli;
pub mod json;
pub mod repository;
pub mod subst;
pub mod template;
pub mod text;
