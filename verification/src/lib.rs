//! Foreground package resolution for Android and the Linux primitives below it.

pub mod android_property;
pub mod binder_source;
pub mod blocklist;
pub mod byte_order;
pub mod cache;
pub mod cli;
pub mod config;
pub mod daemon;
pub mod error;
pub mod fs;
pub mod inotify;
pub mod io;
pub mod log;
pub mod package_set;
pub mod path;
pub mod proc;
pub mod reactor;
pub mod resolver;
pub mod signal;
pub mod socket;
pub mod spawn;
pub mod supervisor;
pub mod terminal_apps;
pub mod text;
pub mod uid;
pub mod unix_socket;
