//! The management of the game database file: downloading, validating,
//! storing and scheduling updates.
pub mod error;
pub mod file_manager;
pub mod http_client;
pub mod manager;
pub mod scheduler;
pub mod validator;
