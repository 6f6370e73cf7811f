pub mod scheduler_task;
