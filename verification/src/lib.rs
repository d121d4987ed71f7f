pub mod commands;
pub mod static_files;
pub mod util;
