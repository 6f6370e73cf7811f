pub mod util;
pub mod meta;
pub mod store_meta;
pub mod store_balancer;
pub mod region_allocator;
pub mod admin;
pub mod failure_detector;
pub mod message;
pub mod runner;
pub mod split_checker;
pub mod recovery;
pub mod peer;
pub mod peer_storage;
pub mod peer_msg_handler;
pub mod scheduler_client;
pub mod region_task;
