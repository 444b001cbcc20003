//! The decisions of each command. Reading, asking and printing are left to the
//! caller, who hands in what was read and carries out what comes back.

pub mod add;
pub mod init;
pub mod list;
pub mod rm;
pub mod select;
pub mod show_config;
pub mod tag;
