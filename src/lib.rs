//! Render-and-dispatch pipeline for templated SQL migrations: discovered
//! files are ordered by logical name, rendered through minijinja with the
//! functions a gated template context offers, and then either written out
//! (dry run) or handed, in order, to refinery.

pub mod naming;
pub mod order;
pub mod discovery;
pub mod context;
pub mod pipeline;
pub mod engine;
