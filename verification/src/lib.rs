pub mod balancer;
pub mod cli;
pub mod config;
pub mod gateway;
pub mod logging;
pub mod text;
pub mod time;
