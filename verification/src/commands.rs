pub mod dispatch;
pub mod groupinstall;
pub mod help;
pub mod install;
pub mod list;
pub mod localinstall;
pub mod remove;
pub mod setup_files;
pub mod sync;
pub mod upgrade;
