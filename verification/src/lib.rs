pub mod buf;
pub mod network;
pub mod protocol;
pub mod world;
