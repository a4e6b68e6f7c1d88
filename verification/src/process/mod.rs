pub mod activity_manager;
pub mod database;
pub mod detector;
pub mod error;
pub mod path_processor;
pub mod scanner;
