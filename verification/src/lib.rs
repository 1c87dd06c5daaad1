//! Local mirror of a remote document-search service.
//!
//! The library keeps two entity kinds — stores (collections of documents)
//! and documents (single uploaded files) — in a local persistent store and
//! reconciles them with the remote service: a synchronization engine pushes
//! local creations and deletions outward, and a polling engine resolves
//! outstanding remote ingestion operations into terminal local states.
//!
//! All remote and disk I/O lives outside this crate; the library holds the
//! data model, the store, and the decision logic of both engines, and hands
//! the surrounding program plain requests to carry out.

pub mod commands;
pub mod db;
pub mod decode;
pub mod gemini;
pub mod laws;
pub mod model;
pub mod polling;
pub mod state;
pub mod sync;
pub mod text;
