pub mod client;
pub mod session_manager;
pub mod server;
