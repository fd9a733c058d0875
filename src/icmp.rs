pub mod buffer;
pub mod types;
pub mod packet;
