pub mod indexing;
pub mod queries;
pub mod register;
pub mod registration_laws;
