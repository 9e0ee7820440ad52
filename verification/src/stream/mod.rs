pub mod bytes_buf;
pub mod encoding;
pub mod text;
pub mod byte_stream;
pub mod laws;
