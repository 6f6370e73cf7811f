pub mod util;
pub mod write_batch;
pub mod wal;
pub mod iterator;
