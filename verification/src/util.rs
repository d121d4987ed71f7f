pub mod config;
pub mod conf;
pub mod database;
pub mod digest;
pub mod paths;
pub mod lock;
pub mod lists;
pub mod macros;
pub mod mirrors;
pub mod packaging;
pub mod text;
pub mod transactions;
pub mod version;
