//! Persistence core of a personal note-taking application: an in-memory
//! relational store of subjects and notes with CRUD access and substring
//! search, verified against a sequence-based model. Durable storage of the
//! same rows in a database file is the surrounding application's concern;
//! this crate owns the semantics: ordering, cascade deletion, referential
//! integrity and the search cap.

pub mod laws;
pub mod model;
pub mod sort;
pub mod store;
pub mod text;
