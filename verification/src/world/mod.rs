pub mod anvil;
pub mod chunk;
pub mod generation;
pub mod save;
