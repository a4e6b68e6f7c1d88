pub mod activity;
pub mod bridge;
pub mod config;
pub mod connection_manager;
pub mod database;
pub mod db;
pub mod detector;
pub mod error;
pub mod json;
pub mod logger;
pub mod outside;
pub mod process;
pub mod server;
pub mod text;
pub mod transports;
