pub mod conflict;
pub mod dependencies;
pub mod install;
