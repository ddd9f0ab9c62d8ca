pub mod connection;
pub mod session;
