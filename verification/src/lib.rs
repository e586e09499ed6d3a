//! Memory ingest domain library: canonical source identity, source
//! normalization into memory items, indexing outbox state and search
//! projection rules.

pub mod error;
pub mod text;
pub mod domain;
pub mod infra;
pub mod application;
pub mod bootstrap;
pub mod credential_laws;
