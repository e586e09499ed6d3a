pub mod indexer;
pub mod records;
pub mod migration;
pub mod migration_rewrite;
pub mod source_migration;
pub mod meili_indexer;
pub mod surreal_source_repo;
pub mod migration_laws;
