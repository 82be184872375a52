pub mod noop_scheduler;
