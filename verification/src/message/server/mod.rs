pub mod authentication_response_message;
