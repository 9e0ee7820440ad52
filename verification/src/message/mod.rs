pub mod piranha_message;
pub mod client;
pub mod server;
pub mod logic_laser_message_factory;
pub mod message_manager;
