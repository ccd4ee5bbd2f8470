pub mod cgroup;
pub mod config;
pub mod monitor;
pub mod scan;
