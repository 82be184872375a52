pub mod partition_core;
pub mod partition_register;
pub mod partition_utils;
