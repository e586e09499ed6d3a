pub mod json;
pub mod source;
pub mod memory_item;
pub mod normalization;
pub mod source_identity;
pub mod source_external_id;
pub mod credential;
pub mod event;
pub mod json_order;
pub mod urn;
pub mod external_id_laws;
