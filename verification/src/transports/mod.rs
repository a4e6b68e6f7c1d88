pub mod ipc;
pub mod websocket;
