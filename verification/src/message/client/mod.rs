pub mod client_hello_message;
pub mod titan_login_message;
