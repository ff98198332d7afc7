pub mod app_config;
pub mod app_error;
pub mod app_state;
pub mod balance;
pub mod client;
pub mod statement;
pub mod transaction;
pub mod utils;
