pub mod config;
pub mod id_allocator;
pub mod state;
pub mod http;
