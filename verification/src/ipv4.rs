pub mod builder;
pub mod error;
pub mod fragmentation;
pub mod interface;
pub mod packet;
pub mod reassembly;
