//! The decisions of a tool that runs scripts and archives the ones that work.

pub mod archive;
pub mod archiving;
pub mod backups;
pub mod command;
pub mod digest;
pub mod git_helpers;
pub mod latest;
pub mod monitor;
pub mod paths;
pub mod projects;
pub mod prune;
pub mod run;
pub mod scripts;
pub mod text;
pub mod watch;
