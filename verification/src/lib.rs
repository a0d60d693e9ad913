pub mod config;
pub mod detect;
pub mod git;
pub mod laws;
pub mod profile;
pub mod prompt;
pub mod ssh;
pub mod ssh_keys;
pub mod strutil;
