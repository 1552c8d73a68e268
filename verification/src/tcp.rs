pub mod error;
pub mod packet;
