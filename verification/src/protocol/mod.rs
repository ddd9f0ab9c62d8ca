pub mod buffer;
pub mod client_view;
pub mod error;
pub mod fml;
pub mod packet;
pub mod packets;
pub mod types;
pub mod varint;
pub mod wire;
